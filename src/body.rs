//! Track records and measure bodies of the third and fourth generations:
//! for each measure, for each track, one voice of beats and their notes.
use crate::binary::{
    byte_at, byte_size_string_at, int_at, int_size_string_at, read_byte, read_byte_size_string,
    read_int, read_int_size_string, read_signed_byte, signed_byte_at, DecodeError,
};
use crate::duration::Duration;
use crate::legacy::{
    color_at, count_at, duration_at, opt_byte_at, opt_signed_byte_at, read_count, read_rgb_color,
    skip, skip_at,
};
use crate::song::{Beat, Measure, Note, Track, TrackHeader, Voice};
use vstd::prelude::*;

verus! {

/// Which generation's layout a body is stored in.
#[derive(Debug, Clone, Copy, PartialEq, Eq, Structural)]
pub enum Layout {
    Third,
    Fourth,
    /// The fifth generation, version 5.00.
    Fifth,
    /// The fifth generation, version 5.10.
    FifthTen,
}

/// Whether the layout is the fourth generation's or a later one.
pub open spec fn later(l: Layout) -> bool {
    !(l is Third)
}

/// Whether the layout is the fifth generation's.
pub open spec fn fifth(l: Layout) -> bool {
    l is Fifth || l is FifthTen
}

impl Layout {
    pub fn later(self) -> (r: bool)
        ensures
            r == later(self),
    {
        !matches!(self, Layout::Third)
    }

    pub fn fifth(self) -> (r: bool)
        ensures
            r == fifth(self),
    {
        matches!(self, Layout::Fifth | Layout::FifthTen)
    }

    pub fn ten(self) -> (r: bool)
        ensures
            r == (self is FifthTen),
    {
        matches!(self, Layout::FifthTen)
    }
}

/// Size of the field that holds a track name.
pub const TRACK_NAME_FIELD: usize = 40;

/// Number of tuning entries stored for every track.
pub const TUNING_SLOTS: usize = 7;

/// `k` integers in a row.
pub open spec fn ints_at(d: Seq<u8>, p: nat, k: nat) -> Result<(Seq<int>, nat), DecodeError>
    decreases k,
{
    if k == 0 {
        Ok((Seq::empty(), p))
    } else {
        match ints_at(d, p, (k - 1) as nat) {
            Err(e) => Err(e),
            Ok((vs, q)) => match int_at(d, q) {
                Err(e) => Err(e),
                Ok((v, r)) => Ok((vs.push(v), r)),
            },
        }
    }
}

proof fn lemma_ints_err(d: Seq<u8>, p: nat, j: nat, k: nat)
    requires
        j <= k,
        ints_at(d, p, j) is Err,
    ensures
        ints_at(d, p, k) == ints_at(d, p, j),
    decreases k - j,
{
    if j < k {
        lemma_ints_err(d, p, j, (k - 1) as nat);
    }
}

fn read_ints(data: &[u8], seek: &mut usize, k: usize) -> (r: Result<Vec<i32>, DecodeError>)
    ensures
        match ints_at(data@, *old(seek) as nat, k as nat) {
            Ok((v, q)) => r matches Ok(w) && w@.map_values(|x: i32| x as int) == v && *final(seek) == q,
            Err(e) => r == Err::<Vec<i32>, DecodeError>(e),
        },
        r matches Ok(w) ==> w@.len() == k,
{
    let ghost start = *seek as nat;
    let mut out: Vec<i32> = Vec::new();
    proof {
        assert(out@.map_values(|x: i32| x as int) =~= Seq::<int>::empty());
    }
    for i in 0..k
        invariant
            start == *old(seek) as nat,
            out@.len() == i,
            ints_at(data@, start, i as nat) == Ok::<(Seq<int>, nat), DecodeError>((out@.map_values(|x: i32| x as int), *seek as nat)),
    {
        let v = match read_int(data, seek) {
            Ok(v) => v,
            Err(e) => {
                proof {
                    lemma_ints_err(data@, start, (i + 1) as nat, k as nat);
                }
                return Err(e);
            },
        };
        proof {
            assert(out@.push(v).map_values(|x: i32| x as int) =~= out@.map_values(|x: i32| x as int).push(v as int));
        }
        out.push(v);
    }
    Ok(out)
}

pub ghost struct TrackView {
    pub flags: u8,
    pub name: Seq<char>,
    pub tuning: Seq<int>,
    pub port: int,
    pub channel: int,
    pub effect_channel: int,
    pub frets: int,
    pub offset: int,
    pub color: (u8, u8, u8),
}

pub open spec fn track_view(t: TrackHeader) -> TrackView {
    TrackView {
        flags: t.flags,
        name: t.name@,
        tuning: t.tuning@.map_values(|x: i32| x as int),
        port: t.port as int,
        channel: t.channel as int,
        effect_channel: t.effect_channel as int,
        frets: t.frets as int,
        offset: t.offset as int,
        color: t.color,
    }
}

pub open spec fn track_views(v: Seq<TrackHeader>) -> Seq<TrackView> {
    v.map_values(|t: TrackHeader| track_view(t))
}

/// A track record at `p`: flags, a name in a 40-byte field, the string count
/// (one to seven), seven tuning integers of which the first string-count
/// are kept, port, channel, effect channel, fret count and capo offset as
/// integers, then a colour.
pub open spec fn track_at(d: Seq<u8>, p: nat) -> Result<(TrackView, nat), DecodeError> {
    match byte_at(d, p) {
        Err(e) => Err(e),
        Ok((flags, p1)) => match byte_size_string_at(d, p1, TRACK_NAME_FIELD as nat) {
            Err(e) => Err(e),
            Ok((name, p2)) => match int_at(d, p2) {
                Err(e) => Err(e),
                Ok((n, p3)) => if !(1 <= n <= TUNING_SLOTS) {
                    Err(DecodeError::Malformed)
                } else {
                    match ints_at(d, p3, TUNING_SLOTS as nat) {
                        Err(e) => Err(e),
                        Ok((tuning, p5)) => match int_at(d, p5) {
                            Err(e) => Err(e),
                            Ok((port, p6)) => match int_at(d, p6) {
                                Err(e) => Err(e),
                                Ok((channel, p7)) => match int_at(d, p7) {
                                    Err(e) => Err(e),
                                    Ok((effect_channel, p8)) => match int_at(d, p8) {
                                        Err(e) => Err(e),
                                        Ok((frets, p9)) => match int_at(d, p9) {
                                            Err(e) => Err(e),
                                            Ok((offset, p10)) => match color_at(d, p10) {
                                                Err(e) => Err(e),
                                                Ok((color, p11)) => Ok((TrackView { flags, name, tuning: tuning.take(n), port, channel, effect_channel, frets, offset, color }, p11)),
                                            },
                                        },
                                    },
                                },
                            },
                        },
                    }
                },
            },
        },
    }
}

/// Reads a track record; see `track_at` for the layout.
pub fn read_track(data: &[u8], seek: &mut usize) -> (r: Result<TrackHeader, DecodeError>)
    ensures
        match track_at(data@, *old(seek) as nat) {
            Ok((v, q)) => r matches Ok(t) && track_view(t) == v && *final(seek) == q,
            Err(e) => r == Err::<TrackHeader, DecodeError>(e),
        },
{
    let flags = read_byte(data, seek)?;
    let name = read_byte_size_string(data, seek, TRACK_NAME_FIELD)?;
    let n = read_int(data, seek)?;
    if n < 1 || n > TUNING_SLOTS as i32 {
        return Err(DecodeError::Malformed);
    }
    let all = read_ints(data, seek, TUNING_SLOTS)?;
    let mut tuning: Vec<i32> = Vec::new();
    for i in 0..n as usize
        invariant
            all@.len() == TUNING_SLOTS,
            1 <= n <= TUNING_SLOTS,
            tuning@ == all@.take(i as int),
    {
        tuning.push(all[i]);
        assert(tuning@ =~= all@.take(i + 1));
    }
    let port = read_int(data, seek)?;
    let channel = read_int(data, seek)?;
    let effect_channel = read_int(data, seek)?;
    let frets = read_int(data, seek)?;
    let offset = read_int(data, seek)?;
    let color = read_rgb_color(data, seek)?;
    proof {
        assert(tuning@.map_values(|x: i32| x as int) =~= all@.map_values(|x: i32| x as int).take(n as int));
    }
    Ok(TrackHeader { flags, name, tuning, port, channel, effect_channel, frets, offset, color })
}

/// The sound settings that close a fifth-generation track record: 41
/// bytes (second flags, accentuation, bank, humanizing and sound-bank
/// data), an effect number of three bytes (four in 5.10), and for 5.10 an
/// equalizer of four bytes and two effect strings.
pub open spec fn track_sound_at(layout: Layout, d: Seq<u8>, p: nat) -> Result<((), nat), DecodeError> {
    if fifth(layout) {
        match skip_at(d, p, 41) {
            Err(e) => Err(e),
            Ok((_settings, p1)) => match skip_at(d, p1, if layout is FifthTen { 4 } else { 3 }) {
                Err(e) => Err(e),
                Ok((_effect, p2)) => match skip_if_at(d, p2, layout is FifthTen, 4) {
                    Err(e) => Err(e),
                    Ok((_equalizer, p3)) => match opt_text_at(d, p3, layout is FifthTen) {
                        Err(e) => Err(e),
                        Ok((_e1, p4)) => match opt_text_at(d, p4, layout is FifthTen) {
                            Err(e) => Err(e),
                            Ok((_e2, p5)) => Ok(((), p5)),
                        },
                    },
                },
            },
        }
    } else {
        Ok(((), p))
    }
}

fn read_track_sound(layout: Layout, data: &[u8], seek: &mut usize) -> (r: Result<(), DecodeError>)
    ensures
        match track_sound_at(layout, data@, *old(seek) as nat) {
            Ok((_, q)) => r is Ok && *final(seek) == q,
            Err(e) => r == Err::<(), DecodeError>(e),
        },
{
    if layout.fifth() {
        skip(data, seek, 41)?;
        skip(data, seek, if layout.ten() { 4 } else { 3 })?;
        skip_if(data, seek, layout.ten(), 4)?;
        read_opt_text(data, seek, layout.ten())?;
        read_opt_text(data, seek, layout.ten())?;
    }
    Ok(())
}

/// A track record of the given layout at `p`: in the fifth generation an
/// unused byte before the first track (before every track in 5.00), then
/// the record of `track_at`, then the sound settings.
pub open spec fn track_in_at(layout: Layout, d: Seq<u8>, p: nat, first: bool) -> Result<(TrackView, nat), DecodeError> {
    match skip_if_at(d, p, fifth(layout) && (first || layout is Fifth), 1) {
        Err(e) => Err(e),
        Ok((_, p1)) => match track_at(d, p1) {
            Err(e) => Err(e),
            Ok((t, p2)) => match track_sound_at(layout, d, p2) {
                Err(e) => Err(e),
                Ok((_, p3)) => Ok((t, p3)),
            },
        },
    }
}

fn read_track_in(layout: Layout, data: &[u8], seek: &mut usize, first: bool) -> (r: Result<TrackHeader, DecodeError>)
    ensures
        match track_in_at(layout, data@, *old(seek) as nat, first) {
            Ok((v, q)) => r matches Ok(t) && track_view(t) == v && *final(seek) == q,
            Err(e) => r == Err::<TrackHeader, DecodeError>(e),
        },
{
    skip_if(data, seek, layout.fifth() && (first || matches!(layout, Layout::Fifth)), 1)?;
    let t = read_track(data, seek)?;
    read_track_sound(layout, data, seek)?;
    Ok(t)
}

/// `k` track records in a row.
pub open spec fn tracks_at(layout: Layout, d: Seq<u8>, p: nat, k: nat) -> Result<(Seq<TrackView>, nat), DecodeError>
    decreases k,
{
    if k == 0 {
        Ok((Seq::empty(), p))
    } else {
        match tracks_at(layout, d, p, (k - 1) as nat) {
            Err(e) => Err(e),
            Ok((ts, q)) => match track_in_at(layout, d, q, k == 1) {
                Err(e) => Err(e),
                Ok((t, r)) => Ok((ts.push(t), r)),
            },
        }
    }
}

proof fn lemma_tracks_err(layout: Layout, d: Seq<u8>, p: nat, j: nat, k: nat)
    requires
        j <= k,
        tracks_at(layout, d, p, j) is Err,
    ensures
        tracks_at(layout, d, p, k) == tracks_at(layout, d, p, j),
    decreases k - j,
{
    if j < k {
        lemma_tracks_err(layout, d, p, j, (k - 1) as nat);
    }
}

/// Reads `k` track records.
pub fn read_tracks(layout: Layout, data: &[u8], seek: &mut usize, k: usize) -> (r: Result<Vec<TrackHeader>, DecodeError>)
    ensures
        match tracks_at(layout, data@, *old(seek) as nat, k as nat) {
            Ok((v, q)) => r matches Ok(w) && track_views(w@) == v && *final(seek) == q,
            Err(e) => r == Err::<Vec<TrackHeader>, DecodeError>(e),
        },
{
    let ghost start = *seek as nat;
    let mut out: Vec<TrackHeader> = Vec::new();
    proof {
        assert(track_views(out@) =~= Seq::<TrackView>::empty());
    }
    for i in 0..k
        invariant
            start == *old(seek) as nat,
            tracks_at(layout, data@, start, i as nat) == Ok::<(Seq<TrackView>, nat), DecodeError>((track_views(out@), *seek as nat)),
    {
        let t = match read_track_in(layout, data, seek, i == 0) {
            Ok(t) => t,
            Err(e) => {
                proof {
                    lemma_tracks_err(layout, data@, start, (i + 1) as nat, k as nat);
                }
                return Err(e);
            },
        };
        proof {
            assert(track_views(out@.push(t)) =~= track_views(out@).push(track_view(t)));
        }
        out.push(t);
    }
    Ok(out)
}

/// Nothing read unless `present`; then `n` bytes passed over.
pub open spec fn skip_if_at(d: Seq<u8>, p: nat, present: bool, n: nat) -> Result<((), nat), DecodeError> {
    if present {
        skip_at(d, p, n)
    } else {
        Ok(((), p))
    }
}

fn skip_if(data: &[u8], seek: &mut usize, present: bool, n: usize) -> (r: Result<(), DecodeError>)
    ensures
        match skip_if_at(data@, *old(seek) as nat, present, n as nat) {
            Ok((_, q)) => r is Ok && *final(seek) == q,
            Err(e) => r == Err::<(), DecodeError>(e),
        },
{
    if present {
        skip(data, seek, n)
    } else {
        Ok(())
    }
}

/// Bytes of one point of a bend: position and value integers, a vibrato byte.
pub const BEND_POINT_BYTES: usize = 9;

/// A bend at `p` when `present`: its type byte, its value, the number of
/// points as a count, then the points.
pub open spec fn bend_at(d: Seq<u8>, p: nat, present: bool) -> Result<((), nat), DecodeError> {
    if present {
        match byte_at(d, p) {
            Err(e) => Err(e),
            Ok((_kind, p1)) => match int_at(d, p1) {
                Err(e) => Err(e),
                Ok((_value, p2)) => match count_at(d, p2) {
                    Err(e) => Err(e),
                    Ok((n, p3)) => match skip_at(d, p3, n * BEND_POINT_BYTES as nat) {
                        Err(e) => Err(e),
                        Ok((_points, p4)) => Ok(((), p4)),
                    },
                },
            },
        }
    } else {
        Ok(((), p))
    }
}

fn read_bend(data: &[u8], seek: &mut usize, present: bool) -> (r: Result<(), DecodeError>)
    ensures
        match bend_at(data@, *old(seek) as nat, present) {
            Ok((_, q)) => r is Ok && *final(seek) == q,
            Err(e) => r == Err::<(), DecodeError>(e),
        },
{
    if !present {
        return Ok(());
    }
    read_byte(data, seek)?;
    read_int(data, seek)?;
    let n = read_count(data, seek)?;
    assert(n * 9 <= 0x7fff_ffff * 9) by (nonlinear_arith)
        requires
            n <= 0x7fff_ffff,
    ;
    let total: u64 = n as u64 * 9;
    if *seek > data.len() || ((data.len() - *seek) as u64) < total {
        return Err(DecodeError::Truncated);
    }
    *seek = *seek + total as usize;
    Ok(())
}

/// The effects of a note at `p` when `present`. Third generation: a flags
/// byte, a bend (0x01) and a grace note of four bytes (0x10). Fourth
/// generation: two flags bytes; from the first a bend (0x01) and a grace
/// note (0x10); from the second tremolo picking (0x04), slide (0x08) and
/// harmonic (0x10) of one byte each, and a trill of two bytes (0x20).
pub open spec fn note_effects_at(layout: Layout, d: Seq<u8>, p: nat, present: bool) -> Result<((), nat), DecodeError> {
    if !present {
        Ok(((), p))
    } else if later(layout) {
        match byte_at(d, p) {
            Err(e) => Err(e),
            Ok((f1, p1)) => match byte_at(d, p1) {
                Err(e) => Err(e),
                Ok((f2, p2)) => match bend_at(d, p2, f1 & 0x01u8 != 0) {
                    Err(e) => Err(e),
                    Ok((_bend, p3)) => match skip_if_at(d, p3, f1 & 0x10u8 != 0, 4) {
                        Err(e) => Err(e),
                        Ok((_grace, p4)) => match skip_if_at(d, p4, f2 & 0x04u8 != 0, 1) {
                            Err(e) => Err(e),
                            Ok((_tremolo, p5)) => match skip_if_at(d, p5, f2 & 0x08u8 != 0, 1) {
                                Err(e) => Err(e),
                                Ok((_slide, p6)) => match skip_if_at(d, p6, f2 & 0x10u8 != 0, 1) {
                                    Err(e) => Err(e),
                                    Ok((_harmonic, p7)) => match skip_if_at(d, p7, f2 & 0x20u8 != 0, 2) {
                                        Err(e) => Err(e),
                                        Ok((_trill, p8)) => Ok(((), p8)),
                                    },
                                },
                            },
                        },
                    },
                },
            },
        }
    } else {
        match byte_at(d, p) {
            Err(e) => Err(e),
            Ok((f, p1)) => match bend_at(d, p1, f & 0x01u8 != 0) {
                Err(e) => Err(e),
                Ok((_bend, p2)) => match skip_if_at(d, p2, f & 0x10u8 != 0, 4) {
                    Err(e) => Err(e),
                    Ok((_grace, p3)) => Ok(((), p3)),
                },
            },
        }
    }
}

fn read_note_effects(layout: Layout, data: &[u8], seek: &mut usize, present: bool) -> (r: Result<(), DecodeError>)
    ensures
        match note_effects_at(layout, data@, *old(seek) as nat, present) {
            Ok((_, q)) => r is Ok && *final(seek) == q,
            Err(e) => r == Err::<(), DecodeError>(e),
        },
{
    if !present {
        return Ok(());
    }
    if layout.later() {
        let f1 = read_byte(data, seek)?;
        let f2 = read_byte(data, seek)?;
        read_bend(data, seek, f1 & 0x01u8 != 0)?;
        skip_if(data, seek, f1 & 0x10u8 != 0, 4)?;
        skip_if(data, seek, f2 & 0x04u8 != 0, 1)?;
        skip_if(data, seek, f2 & 0x08u8 != 0, 1)?;
        skip_if(data, seek, f2 & 0x10u8 != 0, 1)?;
        skip_if(data, seek, f2 & 0x20u8 != 0, 2)?;
    } else {
        let f = read_byte(data, seek)?;
        read_bend(data, seek, f & 0x01u8 != 0)?;
        skip_if(data, seek, f & 0x10u8 != 0, 4)?;
    }
    Ok(())
}

/// The effects of a beat at `p` when `present`. Third generation: a flags
/// byte, a tapping/slapping byte with a tremolo-bar integer (0x20), and a
/// stroke of two bytes (0x40). Fourth generation: two flags bytes; a
/// slapping byte (first, 0x20), a tremolo bar as a bend (second, 0x04), a
/// stroke of two bytes (first, 0x40) and a pick stroke byte (second, 0x02).
pub open spec fn beat_effects_at(layout: Layout, d: Seq<u8>, p: nat, present: bool) -> Result<((), nat), DecodeError> {
    if !present {
        Ok(((), p))
    } else if later(layout) {
        match byte_at(d, p) {
            Err(e) => Err(e),
            Ok((f1, p1)) => match byte_at(d, p1) {
                Err(e) => Err(e),
                Ok((f2, p2)) => match skip_if_at(d, p2, f1 & 0x20u8 != 0, 1) {
                    Err(e) => Err(e),
                    Ok((_slap, p3)) => match bend_at(d, p3, f2 & 0x04u8 != 0) {
                        Err(e) => Err(e),
                        Ok((_bar, p4)) => match skip_if_at(d, p4, f1 & 0x40u8 != 0, 2) {
                            Err(e) => Err(e),
                            Ok((_stroke, p5)) => match skip_if_at(d, p5, f2 & 0x02u8 != 0, 1) {
                                Err(e) => Err(e),
                                Ok((_pick, p6)) => Ok(((), p6)),
                            },
                        },
                    },
                },
            },
        }
    } else {
        match byte_at(d, p) {
            Err(e) => Err(e),
            Ok((f, p1)) => match skip_if_at(d, p1, f & 0x20u8 != 0, 5) {
                Err(e) => Err(e),
                Ok((_slap, p2)) => match skip_if_at(d, p2, f & 0x40u8 != 0, 2) {
                    Err(e) => Err(e),
                    Ok((_stroke, p3)) => Ok(((), p3)),
                },
            },
        }
    }
}

fn read_beat_effects(layout: Layout, data: &[u8], seek: &mut usize, present: bool) -> (r: Result<(), DecodeError>)
    ensures
        match beat_effects_at(layout, data@, *old(seek) as nat, present) {
            Ok((_, q)) => r is Ok && *final(seek) == q,
            Err(e) => r == Err::<(), DecodeError>(e),
        },
{
    if !present {
        return Ok(());
    }
    if layout.later() {
        let f1 = read_byte(data, seek)?;
        let f2 = read_byte(data, seek)?;
        skip_if(data, seek, f1 & 0x20u8 != 0, 1)?;
        read_bend(data, seek, f2 & 0x04u8 != 0)?;
        skip_if(data, seek, f1 & 0x40u8 != 0, 2)?;
        skip_if(data, seek, f2 & 0x02u8 != 0, 1)?;
    } else {
        let f = read_byte(data, seek)?;
        skip_if(data, seek, f & 0x20u8 != 0, 5)?;
        skip_if(data, seek, f & 0x40u8 != 0, 2)?;
    }
    Ok(())
}

/// A mix table change of the fifth generation at `p`: instrument, its
/// sound-bank record (fifteen bytes, sixteen in 5.10), volume, balance,
/// chorus, reverb, phaser and tremolo as signed bytes, the tempo name and
/// tempo; a transition byte for each of volume to tempo that is not
/// negative, and for 5.10 a hide-tempo byte with the tempo's; the track
/// flags and wah bytes; for 5.10 two effect strings.
pub open spec fn mix5_at(l: Layout, d: Seq<u8>, p: nat) -> Result<((), nat), DecodeError> {
    match signed_byte_at(d, p) {
        Err(e) => Err(e),
        Ok((_instrument, p1)) => match skip_at(d, p1, if l is FifthTen { 16 } else { 15 }) {
            Err(e) => Err(e),
            Ok((_sound, p2)) => match signed_byte_at(d, p2) {
                Err(e) => Err(e),
                Ok((volume, p3)) => match signed_byte_at(d, p3) {
                    Err(e) => Err(e),
                    Ok((balance, p4)) => match signed_byte_at(d, p4) {
                        Err(e) => Err(e),
                        Ok((chorus, p5)) => match signed_byte_at(d, p5) {
                            Err(e) => Err(e),
                            Ok((reverb, p6)) => match signed_byte_at(d, p6) {
                                Err(e) => Err(e),
                                Ok((phaser, p7)) => match signed_byte_at(d, p7) {
                                    Err(e) => Err(e),
                                    Ok((tremolo, p8)) => match int_size_string_at(d, p8) {
                                        Err(e) => Err(e),
                                        Ok((_tempo_name, p9)) => match int_at(d, p9) {
                                            Err(e) => Err(e),
                                            Ok((tempo, p10)) => match skip_if_at(d, p10, volume >= 0, 1) {
                                                Err(e) => Err(e),
                                                Ok((_t1, p11)) => match skip_if_at(d, p11, balance >= 0, 1) {
                                                    Err(e) => Err(e),
                                                    Ok((_t2, p12)) => match skip_if_at(d, p12, chorus >= 0, 1) {
                                                        Err(e) => Err(e),
                                                        Ok((_t3, p13)) => match skip_if_at(d, p13, reverb >= 0, 1) {
                                                            Err(e) => Err(e),
                                                            Ok((_t4, p14)) => match skip_if_at(d, p14, phaser >= 0, 1) {
                                                                Err(e) => Err(e),
                                                                Ok((_t5, p15)) => match skip_if_at(d, p15, tremolo >= 0, 1) {
                                                                    Err(e) => Err(e),
                                                                    Ok((_t6, p16)) => match skip_if_at(d, p16, tempo >= 0, 1) {
                                                                        Err(e) => Err(e),
                                                                        Ok((_t7, p17)) => match skip_if_at(d, p17, tempo >= 0 && l is FifthTen, 1) {
                                                                            Err(e) => Err(e),
                                                                            Ok((_hide, p18)) => match skip_at(d, p18, 2) {
                                                                                Err(e) => Err(e),
                                                                                Ok((_flags, p19)) => match opt_text_at(d, p19, l is FifthTen) {
                                                                                    Err(e) => Err(e),
                                                                                    Ok((_e1, p20)) => match opt_text_at(d, p20, l is FifthTen) {
                                                                                        Err(e) => Err(e),
                                                                                        Ok((_e2, p21)) => Ok(((), p21)),
                                                                                    },
                                                                                },
                                                                            },
                                                                        },
                                                                    },
                                                                },
                                                            },
                                                        },
                                                    },
                                                },
                                            },
                                        },
                                    },
                                },
                            },
                        },
                    },
                },
            },
        },
    }
}

fn read_mix5(l: Layout, data: &[u8], seek: &mut usize) -> (r: Result<(), DecodeError>)
    ensures
        match mix5_at(l, data@, *old(seek) as nat) {
            Ok((_, q)) => r is Ok && *final(seek) == q,
            Err(e) => r == Err::<(), DecodeError>(e),
        },
{
    read_signed_byte(data, seek)?;
    skip(data, seek, if l.ten() { 16 } else { 15 })?;
    let volume = read_signed_byte(data, seek)?;
    let balance = read_signed_byte(data, seek)?;
    let chorus = read_signed_byte(data, seek)?;
    let reverb = read_signed_byte(data, seek)?;
    let phaser = read_signed_byte(data, seek)?;
    let tremolo = read_signed_byte(data, seek)?;
    read_int_size_string(data, seek)?;
    let tempo = read_int(data, seek)?;
    skip_if(data, seek, volume >= 0, 1)?;
    skip_if(data, seek, balance >= 0, 1)?;
    skip_if(data, seek, chorus >= 0, 1)?;
    skip_if(data, seek, reverb >= 0, 1)?;
    skip_if(data, seek, phaser >= 0, 1)?;
    skip_if(data, seek, tremolo >= 0, 1)?;
    skip_if(data, seek, tempo >= 0, 1)?;
    skip_if(data, seek, tempo >= 0 && l.ten(), 1)?;
    skip(data, seek, 2)?;
    read_opt_text(data, seek, l.ten())?;
    read_opt_text(data, seek, l.ten())?;
    Ok(())
}

/// A mix table change at `p` when `present`: instrument, volume, balance,
/// chorus, reverb, phaser and tremolo as signed bytes and the tempo as an
/// integer; then a transition byte for each of volume to tempo that is not
/// negative; the fourth generation ends with a byte of track flags.
pub open spec fn mix_at(layout: Layout, d: Seq<u8>, p: nat, present: bool) -> Result<((), nat), DecodeError> {
    if present && fifth(layout) {
        mix5_at(layout, d, p)
    } else if present {
        match signed_byte_at(d, p) {
            Err(e) => Err(e),
            Ok((_instrument, p1)) => match signed_byte_at(d, p1) {
                Err(e) => Err(e),
                Ok((volume, p2)) => match signed_byte_at(d, p2) {
                    Err(e) => Err(e),
                    Ok((balance, p3)) => match signed_byte_at(d, p3) {
                        Err(e) => Err(e),
                        Ok((chorus, p4)) => match signed_byte_at(d, p4) {
                            Err(e) => Err(e),
                            Ok((reverb, p5)) => match signed_byte_at(d, p5) {
                                Err(e) => Err(e),
                                Ok((phaser, p6)) => match signed_byte_at(d, p6) {
                                    Err(e) => Err(e),
                                    Ok((tremolo, p7)) => match int_at(d, p7) {
                                        Err(e) => Err(e),
                                        Ok((tempo, p8)) => match skip_if_at(d, p8, volume >= 0, 1) {
                                            Err(e) => Err(e),
                                            Ok((_t1, p9)) => match skip_if_at(d, p9, balance >= 0, 1) {
                                                Err(e) => Err(e),
                                                Ok((_t2, p10)) => match skip_if_at(d, p10, chorus >= 0, 1) {
                                                    Err(e) => Err(e),
                                                    Ok((_t3, p11)) => match skip_if_at(d, p11, reverb >= 0, 1) {
                                                        Err(e) => Err(e),
                                                        Ok((_t4, p12)) => match skip_if_at(d, p12, phaser >= 0, 1) {
                                                            Err(e) => Err(e),
                                                            Ok((_t5, p13)) => match skip_if_at(d, p13, tremolo >= 0, 1) {
                                                                Err(e) => Err(e),
                                                                Ok((_t6, p14)) => match skip_if_at(d, p14, tempo >= 0, 1) {
                                                                    Err(e) => Err(e),
                                                                    Ok((_t7, p15)) => match skip_if_at(d, p15, later(layout), 1) {
                                                                        Err(e) => Err(e),
                                                                        Ok((_flags, p16)) => Ok(((), p16)),
                                                                    },
                                                                },
                                                            },
                                                        },
                                                    },
                                                },
                                            },
                                        },
                                    },
                                },
                            },
                        },
                    },
                },
            },
        }
    } else {
        Ok(((), p))
    }
}

fn read_mix(layout: Layout, data: &[u8], seek: &mut usize, present: bool) -> (r: Result<(), DecodeError>)
    ensures
        match mix_at(layout, data@, *old(seek) as nat, present) {
            Ok((_, q)) => r is Ok && *final(seek) == q,
            Err(e) => r == Err::<(), DecodeError>(e),
        },
{
    if !present {
        return Ok(());
    }
    if layout.fifth() {
        return read_mix5(layout, data, seek);
    }
    read_signed_byte(data, seek)?;
    let volume = read_signed_byte(data, seek)?;
    let balance = read_signed_byte(data, seek)?;
    let chorus = read_signed_byte(data, seek)?;
    let reverb = read_signed_byte(data, seek)?;
    let phaser = read_signed_byte(data, seek)?;
    let tremolo = read_signed_byte(data, seek)?;
    let tempo = read_int(data, seek)?;
    skip_if(data, seek, volume >= 0, 1)?;
    skip_if(data, seek, balance >= 0, 1)?;
    skip_if(data, seek, chorus >= 0, 1)?;
    skip_if(data, seek, reverb >= 0, 1)?;
    skip_if(data, seek, phaser >= 0, 1)?;
    skip_if(data, seek, tremolo >= 0, 1)?;
    skip_if(data, seek, tempo >= 0, 1)?;
    skip_if(data, seek, layout.later(), 1)?;
    Ok(())
}

/// Bytes of a chord diagram in the new format after its format byte.
pub open spec fn new_chord_bytes(layout: Layout) -> nat {
    if later(layout) { 106 } else { 124 }
}

/// A chord diagram at `p` when `present`: a format byte; the new format
/// (0x01) is of fixed size; the old one holds a name string, the first fret
/// as an integer and, when that is not 0, six fret integers.
pub open spec fn chord_at(layout: Layout, d: Seq<u8>, p: nat, present: bool) -> Result<((), nat), DecodeError> {
    if present {
        match byte_at(d, p) {
            Err(e) => Err(e),
            Ok((header, p1)) => if header & 0x01u8 != 0 {
                skip_at(d, p1, new_chord_bytes(layout))
            } else {
                match int_size_string_at(d, p1) {
                    Err(e) => Err(e),
                    Ok((_name, p1)) => match int_at(d, p1) {
                        Err(e) => Err(e),
                        Ok((first, p2)) => match skip_if_at(d, p2, first != 0, 24) {
                            Err(e) => Err(e),
                            Ok((_frets, p3)) => Ok(((), p3)),
                        },
                    },
                }
            },
        }
    } else {
        Ok(((), p))
    }
}

fn read_chord(layout: Layout, data: &[u8], seek: &mut usize, present: bool) -> (r: Result<(), DecodeError>)
    ensures
        match chord_at(layout, data@, *old(seek) as nat, present) {
            Ok((_, q)) => r is Ok && *final(seek) == q,
            Err(e) => r == Err::<(), DecodeError>(e),
        },
{
    if !present {
        return Ok(());
    }
    let header = read_byte(data, seek)?;
    if header & 0x01u8 != 0 {
        skip(data, seek, if layout.later() { 106 } else { 124 })
    } else {
        read_int_size_string(data, seek)?;
        let first = read_int(data, seek)?;
        skip_if(data, seek, first != 0, 24)
    }
}

/// A note at `p`: its flags, then, as the flags say, its type (0x20), a
/// duration and tuplet (0x01, two bytes; not in the fifth generation), a
/// dynamic (0x10), its fret (0x20), fingering (0x80, two bytes); in the
/// fifth generation a duration percentage (0x01, eight bytes) and a second
/// flags byte; then effects (0x08, see `note_effects_at`). The result is
/// the fret, zero when absent.
#[verifier::opaque]
pub open spec fn note_at(layout: Layout, d: Seq<u8>, p: nat) -> Result<(int, nat), DecodeError> {
    match byte_at(d, p) {
        Err(e) => Err(e),
        Ok((flags, p1)) => match opt_byte_at(d, p1, flags & 0x20u8 != 0) {
            Err(e) => Err(e),
            Ok((_kind, p2)) => match skip_at(d, p2, if flags & 0x01u8 != 0 && !fifth(layout) { 2 } else { 0 }) {
                Err(e) => Err(e),
                Ok((_time, p3)) => match skip_at(d, p3, if flags & 0x10u8 != 0 { 1 } else { 0 }) {
                    Err(e) => Err(e),
                    Ok((_dynamic, p4)) => match opt_signed_byte_at(d, p4, flags & 0x20u8 != 0) {
                        Err(e) => Err(e),
                        Ok((fret, p5)) => match skip_at(d, p5, if flags & 0x80u8 != 0 { 2 } else { 0 }) {
                            Err(e) => Err(e),
                            Ok((_fingering, p6)) => match skip_if_at(d, p6, flags & 0x01u8 != 0 && fifth(layout), 8) {
                                Err(e) => Err(e),
                                Ok((_percent, p7)) => match skip_if_at(d, p7, fifth(layout), 1) {
                                    Err(e) => Err(e),
                                    Ok((_flags2, p8)) => match note_effects_at(layout, d, p8, flags & 0x08u8 != 0) {
                                        Err(e) => Err(e),
                                        Ok((_effects, p9)) => Ok((match fret { Some(f) => f, None => 0 }, p9)),
                                    },
                                },
                            },
                        },
                    },
                },
            },
        },
    }
}

fn read_note(layout: Layout, data: &[u8], seek: &mut usize) -> (r: Result<i8, DecodeError>)
    ensures
        match note_at(layout, data@, *old(seek) as nat) {
            Ok((f, q)) => r is Ok && r->Ok_0 as int == f && *final(seek) == q,
            Err(e) => r == Err::<i8, DecodeError>(e),
        },
{
    reveal(note_at);
    let flags = read_byte(data, seek)?;
    if flags & 0x20u8 != 0 {
        read_byte(data, seek)?;
    }
    skip(data, seek, if flags & 0x01u8 != 0 && !layout.fifth() { 2 } else { 0 })?;
    skip(data, seek, if flags & 0x10u8 != 0 { 1 } else { 0 })?;
    let fret = if flags & 0x20u8 != 0 {
        read_signed_byte(data, seek)?
    } else {
        0
    };
    skip(data, seek, if flags & 0x80u8 != 0 { 2 } else { 0 })?;
    skip_if(data, seek, flags & 0x01u8 != 0 && layout.fifth(), 8)?;
    skip_if(data, seek, layout.fifth(), 1)?;
    read_note_effects(layout, data, seek, flags & 0x08u8 != 0)?;
    Ok(fret)
}

/// Whether string `s` (1 to 7) is marked in the string flags `f`: string 1
/// is bit 6, string 7 bit 0.
pub open spec fn string_marked(f: u8, s: u8) -> bool {
    f & (1u8 << ((7 - s) as u8)) != 0
}

/// The notes of a beat from string `s` on, after those in `acc`: a note
/// for every marked string, as (string, fret).
pub open spec fn notes_from(layout: Layout, d: Seq<u8>, p: nat, f: u8, s: u8, acc: Seq<(int, int)>) -> Result<(Seq<(int, int)>, nat), DecodeError>
    decreases 8 - s,
{
    if s < 1 || s > 7 {
        Ok((acc, p))
    } else if string_marked(f, s) {
        match note_at(layout, d, p) {
            Err(e) => Err(e),
            Ok((fret, q)) => notes_from(layout, d, q, f, (s + 1) as u8, acc.push((s as int, fret))),
        }
    } else {
        notes_from(layout, d, p, f, (s + 1) as u8, acc)
    }
}

pub ghost struct BeatView {
    pub duration: Duration,
    pub notes: Seq<(int, int)>,
}

/// A beat at `p`: its flags, a status byte (0x40), its duration, a chord
/// diagram (0x02), a text (0x04), beat effects (0x08), a mix table change
/// (0x10), the string flags and the notes; in the fifth generation then a
/// second flags short, and a beam byte when its bit 0x0800 is set.
#[verifier::opaque]
pub open spec fn beat_at(layout: Layout, d: Seq<u8>, p: nat) -> Result<(BeatView, nat), DecodeError> {
    match byte_at(d, p) {
        Err(e) => Err(e),
        Ok((flags, p1)) => match opt_byte_at(d, p1, flags & 0x40u8 != 0) {
            Err(e) => Err(e),
            Ok((_status, p2)) => match duration_at(d, p2, flags) {
                Err(e) => Err(e),
                Ok((duration, p3)) => match chord_at(layout, d, p3, flags & 0x02u8 != 0) {
                    Err(e) => Err(e),
                    Ok((_chord, p4)) => match opt_text_at(d, p4, flags & 0x04u8 != 0) {
                        Err(e) => Err(e),
                        Ok((_text, p5)) => match beat_effects_at(layout, d, p5, flags & 0x08u8 != 0) {
                            Err(e) => Err(e),
                            Ok((_effects, p6)) => match mix_at(layout, d, p6, flags & 0x10u8 != 0) {
                                Err(e) => Err(e),
                                Ok((_mix, p7)) => match byte_at(d, p7) {
                                    Err(e) => Err(e),
                                    Ok((strings, p8)) => match notes_from(layout, d, p8, strings, 1, Seq::empty()) {
                                        Err(e) => Err(e),
                                        Ok((notes, p9)) => match opt_byte_at(d, p9, fifth(layout)) {
                                            Err(e) => Err(e),
                                            Ok((high, p10)) => match skip_if_at(d, p10, fifth(layout), 1) {
                                                Err(e) => Err(e),
                                                Ok((_low, p11)) => match skip_if_at(d, p11, (high matches Some(h) && h & 0x08u8 != 0), 1) {
                                                    Err(e) => Err(e),
                                                    Ok((_break, p12)) => Ok((BeatView { duration, notes }, p12)),
                                                },
                                            },
                                        },
                                    },
                                },
                            },
                        },
                    },
                },
            },
        },
    }
}

/// A string at `p` when `present`, else nothing read.
pub open spec fn opt_text_at(d: Seq<u8>, p: nat, present: bool) -> Result<(Option<Seq<char>>, nat), DecodeError> {
    if present {
        match int_size_string_at(d, p) {
            Ok((t, q)) => Ok((Some(t), q)),
            Err(e) => Err(e),
        }
    } else {
        Ok((None, p))
    }
}

pub open spec fn note_views(v: Seq<Note>) -> Seq<(int, int)> {
    v.map_values(|n: Note| (n.string as int, n.value as int))
}

pub open spec fn beat_view(b: Beat) -> BeatView {
    BeatView { duration: b.duration, notes: note_views(b.notes@) }
}

fn read_notes(layout: Layout, data: &[u8], seek: &mut usize, f: u8) -> (r: Result<Vec<Note>, DecodeError>)
    ensures
        match notes_from(layout, data@, *old(seek) as nat, f, 1, Seq::empty()) {
            Ok((v, q)) => r matches Ok(w) && note_views(w@) == v && *final(seek) == q,
            Err(e) => r == Err::<Vec<Note>, DecodeError>(e),
        },
{
    let ghost start = *seek as nat;
    let mut notes: Vec<Note> = Vec::new();
    let mut s: u8 = 1;
    proof {
        assert(note_views(notes@) =~= Seq::<(int, int)>::empty());
    }
    while s <= 7
        invariant
            1 <= s <= 8,
            notes_from(layout, data@, *seek as nat, f, s, note_views(notes@)) == notes_from(layout, data@, start, f, 1, Seq::empty()),
            start == *old(seek) as nat,
        decreases 8 - s,
    {
        if f & (1u8 << (7 - s)) != 0 {
            let fret = read_note(layout, data, seek)?;
            let n = Note { string: s, value: fret as i16, properties: Vec::new() };
            proof {
                assert(note_views(notes@.push(n)) =~= note_views(notes@).push((s as int, fret as int)));
            }
            notes.push(n);
        }
        s = s + 1;
    }
    Ok(notes)
}

fn read_opt_text(data: &[u8], seek: &mut usize, present: bool) -> (r: Result<(), DecodeError>)
    ensures
        match opt_text_at(data@, *old(seek) as nat, present) {
            Ok((_, q)) => r is Ok && *final(seek) == q,
            Err(e) => r == Err::<(), DecodeError>(e),
        },
{
    if present {
        read_int_size_string(data, seek)?;
    }
    Ok(())
}

/// Reads a beat; see `beat_at` for the layout.
pub fn read_beat(layout: Layout, data: &[u8], seek: &mut usize) -> (r: Result<Beat, DecodeError>)
    ensures
        match beat_at(layout, data@, *old(seek) as nat) {
            Ok((v, q)) => r matches Ok(b) && beat_view(b) == v && *final(seek) == q,
            Err(e) => r == Err::<Beat, DecodeError>(e),
        },
{
    reveal(beat_at);
    let flags = read_byte(data, seek)?;
    if flags & 0x40u8 != 0 {
        read_byte(data, seek)?;
    }
    let duration = Duration::read(data, seek, flags)?;
    read_chord(layout, data, seek, flags & 0x02u8 != 0)?;
    read_opt_text(data, seek, flags & 0x04u8 != 0)?;
    read_beat_effects(layout, data, seek, flags & 0x08u8 != 0)?;
    read_mix(layout, data, seek, flags & 0x10u8 != 0)?;
    let strings = read_byte(data, seek)?;
    let notes = read_notes(layout, data, seek, strings)?;
    if layout.fifth() {
        let high = read_byte(data, seek)?;
        read_byte(data, seek)?;
        skip_if(data, seek, high & 0x08u8 != 0, 1)?;
    }
    Ok(Beat { duration, notes })
}

/// `k` beats in a row.
pub open spec fn beats_at(layout: Layout, d: Seq<u8>, p: nat, k: nat) -> Result<(Seq<BeatView>, nat), DecodeError>
    decreases k,
{
    if k == 0 {
        Ok((Seq::empty(), p))
    } else {
        match beats_at(layout, d, p, (k - 1) as nat) {
            Err(e) => Err(e),
            Ok((bs, q)) => match beat_at(layout, d, q) {
                Err(e) => Err(e),
                Ok((b, r)) => Ok((bs.push(b), r)),
            },
        }
    }
}

proof fn lemma_beats_err(layout: Layout, d: Seq<u8>, p: nat, j: nat, k: nat)
    requires
        j <= k,
        beats_at(layout, d, p, j) is Err,
    ensures
        beats_at(layout, d, p, k) == beats_at(layout, d, p, j),
    decreases k - j,
{
    if j < k {
        lemma_beats_err(layout, d, p, j, (k - 1) as nat);
    }
}

/// A voice at `p`: the number of beats, then the beats.
pub open spec fn voice_at(layout: Layout, d: Seq<u8>, p: nat) -> Result<(Seq<BeatView>, nat), DecodeError> {
    match count_at(d, p) {
        Err(e) => Err(e),
        Ok((n, q)) => beats_at(layout, d, q, n),
    }
}

pub open spec fn beat_views(v: Seq<Beat>) -> Seq<BeatView> {
    v.map_values(|b: Beat| beat_view(b))
}

/// Reads a voice; see `voice_at` for the layout.
pub fn read_voice(layout: Layout, data: &[u8], seek: &mut usize) -> (r: Result<Vec<Beat>, DecodeError>)
    ensures
        match voice_at(layout, data@, *old(seek) as nat) {
            Ok((v, q)) => r matches Ok(w) && beat_views(w@) == v && *final(seek) == q,
            Err(e) => r == Err::<Vec<Beat>, DecodeError>(e),
        },
{
    let n = read_count(data, seek)?;
    let ghost start = *seek as nat;
    let mut out: Vec<Beat> = Vec::new();
    proof {
        assert(beat_views(out@) =~= Seq::<BeatView>::empty());
    }
    for i in 0..n
        invariant
            start == *old(seek) + 4,
            count_at(data@, *old(seek) as nat) == Ok::<(nat, nat), DecodeError>((n as nat, start)),
            beats_at(layout, data@, start, i as nat) == Ok::<(Seq<BeatView>, nat), DecodeError>((beat_views(out@), *seek as nat)),
    {
        let b = match read_beat(layout, data, seek) {
            Ok(b) => b,
            Err(e) => {
                proof {
                    lemma_beats_err(layout, data@, start, (i + 1) as nat, n as nat);
                }
                return Err(e);
            },
        };
        proof {
            assert(beat_views(out@.push(b)) =~= beat_views(out@).push(beat_view(b)));
        }
        out.push(b);
    }
    Ok(out)
}

/// One measure of one track at `p`: a voice, or in the fifth generation
/// two voices followed by a line-break byte.
pub open spec fn measure_at(layout: Layout, d: Seq<u8>, p: nat) -> Result<(Seq<Seq<BeatView>>, nat), DecodeError> {
    match voice_at(layout, d, p) {
        Err(e) => Err(e),
        Ok((v1, q)) => if fifth(layout) {
            match voice_at(layout, d, q) {
                Err(e) => Err(e),
                Ok((v2, r)) => match skip_at(d, r, 1) {
                    Err(e) => Err(e),
                    Ok((_, r2)) => Ok((seq![v1, v2], r2)),
                },
            }
        } else {
            Ok((seq![v1], q))
        },
    }
}

pub open spec fn measure_view(m: Measure) -> Seq<Seq<BeatView>> {
    m.voices@.map_values(|v: Voice| beat_views(v.beats@))
}

fn read_measure(layout: Layout, data: &[u8], seek: &mut usize) -> (r: Result<Measure, DecodeError>)
    ensures
        match measure_at(layout, data@, *old(seek) as nat) {
            Ok((v, q)) => r matches Ok(m) && measure_view(m) == v && *final(seek) == q,
            Err(e) => r == Err::<Measure, DecodeError>(e),
        },
{
    let mut voices: Vec<Voice> = Vec::new();
    let b1 = read_voice(layout, data, seek)?;
    let ghost v1 = beat_views(b1@);
    voices.push(Voice { beats: b1 });
    if layout.fifth() {
        let b2 = read_voice(layout, data, seek)?;
        let ghost v2 = beat_views(b2@);
        voices.push(Voice { beats: b2 });
        skip(data, seek, 1)?;
        proof {
            assert(voices@.map_values(|v: Voice| beat_views(v.beats@)) =~= seq![v1, v2]);
        }
    } else {
        proof {
            assert(voices@.map_values(|v: Voice| beat_views(v.beats@)) =~= seq![v1]);
        }
    }
    Ok(Measure { voices })
}

/// The measure bodies from measure `m`, track `t` on, measure by measure
/// and track by track, appended per track to `acc`.
pub open spec fn bodies_from(
    layout: Layout,
    d: Seq<u8>,
    p: nat,
    m: nat,
    t: nat,
    mc: nat,
    tc: nat,
    acc: Seq<Seq<Seq<Seq<BeatView>>>>,
) -> Result<(Seq<Seq<Seq<Seq<BeatView>>>>, nat), DecodeError>
    decreases mc - m, tc - t,
{
    if m >= mc {
        Ok((acc, p))
    } else if t >= tc {
        bodies_from(layout, d, p, m + 1, 0, mc, tc, acc)
    } else {
        match measure_at(layout, d, p) {
            Err(e) => Err(e),
            Ok((voices, q)) => bodies_from(layout, d, q, m, t + 1, mc, tc, acc.update(t as int, acc[t as int].push(voices))),
        }
    }
}

/// The bodies of `mc` measures of `tc` tracks at `p`: for each track, for
/// each measure, the beats of each voice.
pub open spec fn bodies_at(layout: Layout, d: Seq<u8>, p: nat, mc: nat, tc: nat) -> Result<(Seq<Seq<Seq<Seq<BeatView>>>>, nat), DecodeError> {
    bodies_from(layout, d, p, 0, 0, mc, tc, no_bodies(tc))
}

/// `tc` tracks without measures.
pub open spec fn no_bodies(tc: nat) -> Seq<Seq<Seq<Seq<BeatView>>>> {
    Seq::new(tc, |i: int| Seq::<Seq<Seq<BeatView>>>::empty())
}

/// For each track, for each of its measures, the beats of each voice.
pub open spec fn body_views(ts: Seq<Track>) -> Seq<Seq<Seq<Seq<BeatView>>>> {
    ts.map_values(|tr: Track| tr.measures@.map_values(|m: Measure| measure_view(m)))
}

/// Reads the bodies of `mc` measures of `tc` tracks into `tc` tracks.
pub fn read_bodies(layout: Layout, data: &[u8], seek: &mut usize, mc: usize, tc: usize) -> (r: Result<Vec<Track>, DecodeError>)
    ensures
        match bodies_at(layout, data@, *old(seek) as nat, mc as nat, tc as nat) {
            Ok((v, q)) => r matches Ok(w) && body_views(w@) == v && *final(seek) == q,
            Err(e) => r == Err::<Vec<Track>, DecodeError>(e),
        },
{
    let ghost start = *seek as nat;
    let ghost init = no_bodies(tc as nat);
    let mut tracks: Vec<Track> = Vec::new();
    for i in 0..tc
        invariant
            tracks@.len() == i,
            forall|j: int| 0 <= j < i ==> (#[trigger] tracks@[j]).measures@.len() == 0,
    {
        tracks.push(Track { measures: Vec::new() });
    }
    proof {
        assert forall|i: int| 0 <= i < tc implies #[trigger] body_views(tracks@)[i] =~= init[i] by {
            assert(tracks@[i].measures@.len() == 0);
        }
        assert(body_views(tracks@) =~= init);
    }
    for m in 0..mc
        invariant
            start == *old(seek) as nat,
            init == no_bodies(tc as nat),
            tracks@.len() == tc,
            bodies_from(layout, data@, *seek as nat, m as nat, 0, mc as nat, tc as nat, body_views(tracks@))
                == bodies_from(layout, data@, start, 0, 0, mc as nat, tc as nat, init),
    {
        for t in 0..tc
            invariant
                start == *old(seek) as nat,
                init == no_bodies(tc as nat),
                m < mc,
                tracks@.len() == tc,
                bodies_from(layout, data@, *seek as nat, m as nat, t as nat, mc as nat, tc as nat, body_views(tracks@))
                    == bodies_from(layout, data@, start, 0, 0, mc as nat, tc as nat, init),
        {
            let ghost before = body_views(tracks@);
            let measure = read_measure(layout, data, seek)?;
            let ghost mv = measure_view(measure);
            let mut tr = tracks.remove(t);
            let ghost old_tr = tr;
            tr.measures.push(measure);
            let ghost new_tr = tr;
            let ghost old_tracks = tracks@;
            tracks.insert(t, tr);
            proof {
                assert(tracks@ =~= old_tracks.insert(t as int, new_tr));
                assert(new_tr.measures@.map_values(|x: Measure| measure_view(x))
                    =~= old_tr.measures@.map_values(|x: Measure| measure_view(x)).push(mv));
                assert(body_views(tracks@) =~= before.update(t as int, before[t as int].push(mv)));
            }
        }
    }
    Ok(tracks)
}

} // verus!
