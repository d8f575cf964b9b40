//! The resolver: walks the id graph of a score document into the canonical
//! tree of tracks, measures, voices, beats and notes.
use crate::duration::{tick_time, Duration, DURATION_WHOLE_TIME};
use vstd::arithmetic::power2::pow2;
use crate::property::NoteProperty;
use crate::schema::{BarView, BeatView, GpifView, MasterBars, NoteView, Rhythm, GPIF};
use crate::song::{Beat, Measure, Note, Track, Voice};
use crate::text::same_text;
use vstd::prelude::*;

verus! {

/// The collection that an id refers into.
#[derive(Debug, PartialEq, Eq, Clone, Copy)]
pub enum Collection {
    Bars,
    Voices,
    Beats,
    Notes,
    Rhythms,
}

/// Why a score document could not be resolved into a song.
#[derive(Debug, PartialEq, Eq)]
pub enum ConvertError {
    /// An id outside the bounds of the collection it refers into.
    BrokenReference(Collection, i64),
    /// A note value outside the closed set.
    UnrecognizedVariant(String),
    /// A master bar, by position, that lists another number of bars than the first.
    IrregularMasterBar(usize),
}

/// The class of a note value name: `Whole` is 0 and each halving adds one.
pub open spec fn note_class(v: Seq<char>) -> Option<u8> {
    if v == "Whole"@ {
        Some(0)
    } else if v == "Half"@ {
        Some(1)
    } else if v == "Quarter"@ {
        Some(2)
    } else if v == "Eighth"@ {
        Some(3)
    } else if v == "16th"@ {
        Some(4)
    } else if v == "32nd"@ {
        Some(5)
    } else {
        None
    }
}

/// The duration that a rhythm of class `class` defines.
pub open spec fn rhythm_duration(r: Rhythm, class: u8) -> Duration {
    Duration {
        value: class,
        dotted: r.augmentation_dot matches Some(d) && d.count == 1,
        double_dotted: r.augmentation_dot matches Some(d) && d.count == 2,
        min_time: 0,
        tuplet_enters: match r.primary_tuplet {
            Some(t) => t.num,
            None => 1,
        },
        tuplet_times: match r.primary_tuplet {
            Some(t) => t.den,
            None => 1,
        },
    }
}

/// The string of the last `String` property, or 0.
pub open spec fn string_of(props: Seq<NoteProperty>) -> u8
    decreases props.len(),
{
    if props.len() == 0 {
        0
    } else if let NoteProperty::String(n) = props.last() {
        n
    } else {
        string_of(props.drop_last())
    }
}

/// The fret of the last `Fret` property, or 0.
pub open spec fn fret_of(props: Seq<NoteProperty>) -> i16
    decreases props.len(),
{
    if props.len() == 0 {
        0
    } else if let NoteProperty::Fret(n) = props.last() {
        n as i16
    } else {
        fret_of(props.drop_last())
    }
}

pub open spec fn in_range(id: int, len: nat) -> bool {
    0 <= id < len
}

pub open spec fn note_ids(b: BeatView) -> Seq<int> {
    match b.notes {
        Some(v) => v,
        None => Seq::empty(),
    }
}

/// Whether every rhythm of the document has a known note value.
pub open spec fn all_rhythms_known(g: GpifView) -> bool {
    forall|i: int| 0 <= i < g.rhythms.len() ==> (#[trigger] note_class(g.rhythms[i].note_value@)) is Some
}

/// Whether beat `b` resolves: its rhythm and notes are in range, and with
/// `values`, its rhythm's note value is known.
pub open spec fn beat_ok(g: GpifView, b: BeatView, values: bool) -> bool {
    &&& in_range(b.rhythm as int, g.rhythms.len())
    &&& values ==> note_class(g.rhythms[b.rhythm as int].note_value@) is Some
    &&& forall|k: int| 0 <= k < note_ids(b).len() ==> in_range(#[trigger] note_ids(b)[k], g.notes.len())
}

pub open spec fn voice_ok(g: GpifView, v: Seq<int>, values: bool) -> bool {
    forall|k: int| 0 <= k < v.len() ==> in_range(#[trigger] v[k], g.beats.len()) && beat_ok(g, g.beats[v[k]], values)
}

pub open spec fn bar_ok(g: GpifView, b: BarView, values: bool) -> bool {
    forall|k: int| 0 <= k < b.voices.len() ==> (#[trigger] b.voices[k]) < 0
        || in_range(b.voices[k], g.voices.len()) && voice_ok(g, g.voices[b.voices[k]], values)
}

/// The number of tracks: the bar count of the first master bar.
pub open spec fn track_count(g: GpifView) -> nat {
    if g.master_bars.len() == 0 {
        0
    } else {
        g.master_bars[0].bars.len()
    }
}

/// Whether every master bar lists as many bars as the first.
pub open spec fn regular(g: GpifView) -> bool {
    forall|i: int| 0 <= i < g.master_bars.len() ==> (#[trigger] g.master_bars[i]).bars.len() == track_count(g)
}

/// Whether the bar that master bar `i` lists for track `t` resolves.
pub open spec fn slot_ok(g: GpifView, i: int, t: int, values: bool) -> bool {
    let id = g.master_bars[i].bars[t];
    in_range(id, g.bars.len()) && bar_ok(g, g.bars[id], values)
}

/// Whether every id reachable from the master bars is in range, and with
/// `values`, every reachable note value is known.
pub open spec fn refs_ok(g: GpifView, values: bool) -> bool {
    forall|i: int, t: int| 0 <= i < g.master_bars.len() && 0 <= t < track_count(g) ==> #[trigger] slot_ok(g, i, t, values)
}

pub open spec fn note_matches(out: Note, n: NoteView) -> bool {
    &&& out.string == string_of(n.properties)
    &&& out.value == fret_of(n.properties)
    &&& out.properties@ == n.properties
}

pub open spec fn beat_matches(out: Beat, g: GpifView, b: BeatView) -> bool {
    let r = g.rhythms[b.rhythm as int];
    &&& out.duration == rhythm_duration(r, note_class(r.note_value@)->0)
    &&& out.notes@.len() == note_ids(b).len()
    &&& forall|k: int| 0 <= k < note_ids(b).len() ==> note_matches(#[trigger] out.notes@[k], g.notes[note_ids(b)[k]])
}

pub open spec fn voice_matches(out: Voice, g: GpifView, v: Seq<int>) -> bool {
    &&& out.beats@.len() == v.len()
    &&& forall|k: int| 0 <= k < v.len() ==> beat_matches(#[trigger] out.beats@[k], g, g.beats[v[k]])
}

/// The voice ids of a bar that are not the empty-slot sentinel, in order.
pub open spec fn present(ids: Seq<int>) -> Seq<int>
    decreases ids.len(),
{
    if ids.len() == 0 {
        Seq::empty()
    } else if ids.last() < 0 {
        present(ids.drop_last())
    } else {
        present(ids.drop_last()).push(ids.last())
    }
}

pub open spec fn measure_matches(out: Measure, g: GpifView, b: BarView) -> bool {
    let ps = present(b.voices);
    &&& out.voices@.len() == ps.len()
    &&& forall|k: int| 0 <= k < ps.len() ==> voice_matches(#[trigger] out.voices@[k], g, g.voices[ps[k]])
}

pub open spec fn track_matches(out: Track, g: GpifView, t: int) -> bool {
    &&& out.measures@.len() == g.master_bars.len()
    &&& forall|i: int| 0 <= i < g.master_bars.len() ==> measure_matches(#[trigger] out.measures@[i], g, g.bars[g.master_bars[i].bars[t]])
}

/// Whether `out` is the track list that document `g` resolves to.
pub open spec fn tracks_match(out: Seq<Track>, g: GpifView) -> bool {
    &&& out.len() == track_count(g)
    &&& forall|t: int| 0 <= t < out.len() ==> track_matches(#[trigger] out[t], g, t)
}

fn copy_properties(v: &Vec<NoteProperty>) -> (r: Vec<NoteProperty>)
    ensures
        r@ == v@,
{
    let mut out: Vec<NoteProperty> = Vec::new();
    for i in 0..v.len()
        invariant
            out@ == v@.take(i as int),
    {
        out.push(v[i].copied());
        assert(out@ =~= v@.take(i + 1));
    }
    assert(v@.take(v.len() as int) =~= v@);
    out
}

/// The canonical note for a document note: string and fret from its last
/// `String` and `Fret` properties, and all its properties kept.
pub fn note_to_note(note: &crate::schema::Note) -> (r: Note)
    ensures
        note_matches(r, note@),
{
    let props = note.properties();
    let mut string: u8 = 0;
    let mut value: i16 = 0;
    for i in 0..props.len()
        invariant
            props@ == note@.properties,
            string == string_of(props@.take(i as int)),
            value == fret_of(props@.take(i as int)),
    {
        proof {
            assert(props@.take(i + 1).drop_last() =~= props@.take(i as int));
        }
        match &props[i] {
            NoteProperty::String(n) => {
                string = *n;
            },
            NoteProperty::Fret(n) => {
                value = *n as i16;
            },
            _ => {},
        }
    }
    proof {
        assert(props@.take(props@.len() as int) =~= props@);
    }
    Note { string, value, properties: copy_properties(props) }
}

/// The class of a note value name, or `None` outside the closed set.
pub fn note_value_class(v: &str) -> (r: Option<u8>)
    ensures
        r == note_class(v@),
{
    if same_text(v, "Whole") {
        Some(0)
    } else if same_text(v, "Half") {
        Some(1)
    } else if same_text(v, "Quarter") {
        Some(2)
    } else if same_text(v, "Eighth") {
        Some(3)
    } else if same_text(v, "16th") {
        Some(4)
    } else if same_text(v, "32nd") {
        Some(5)
    } else {
        None
    }
}

/// The duration a rhythm defines; an unknown note value is an error.
pub fn rhythm_to_duration(r: &Rhythm) -> (d: Result<Duration, ConvertError>)
    ensures
        match note_class(r.note_value@) {
            Some(c) => d == Ok::<Duration, ConvertError>(rhythm_duration(*r, c)),
            None => d == Err::<Duration, ConvertError>(ConvertError::UnrecognizedVariant(r.note_value)),
        },
{
    let value = match note_value_class(r.note_value.as_str()) {
        Some(c) => c,
        None => {
            return Err(ConvertError::UnrecognizedVariant(r.note_value.clone()));
        },
    };
    let (dotted, double_dotted) = match r.augmentation_dot {
        Some(d) => (d.count == 1, d.count == 2),
        None => (false, false),
    };
    let (tuplet_enters, tuplet_times) = match r.primary_tuplet {
        Some(t) => (t.num, t.den),
        None => (1, 1),
    };
    Ok(Duration { value, dotted, double_dotted, min_time: 0, tuplet_enters, tuplet_times })
}

/// Resolves one beat: its rhythm into a duration and its note ids into notes.
pub fn beat_to_beat(beat: &crate::schema::Beat, gpif: &GPIF) -> (r: Result<Beat, ConvertError>)
    ensures
        r is Ok <==> beat_ok(gpif@, beat@, true),
        r matches Ok(b) ==> beat_matches(b, gpif@, beat@),
        r matches Err(ConvertError::BrokenReference(_, _)) ==> !beat_ok(gpif@, beat@, false),
        all_rhythms_known(gpif@) && !beat_ok(gpif@, beat@, false) ==> r matches Err(ConvertError::BrokenReference(_, _)),
        r matches Err(ConvertError::UnrecognizedVariant(_)) ==> !all_rhythms_known(gpif@),
        !(r matches Err(ConvertError::IrregularMasterBar(_))),
        !in_range(beat@.rhythm as int, gpif@.rhythms.len())
            ==> r == Err::<Beat, ConvertError>(ConvertError::BrokenReference(Collection::Rhythms, beat@.rhythm as i64)),
        in_range(beat@.rhythm as int, gpif@.rhythms.len()) && note_class(gpif@.rhythms[beat@.rhythm as int].note_value@) is None
            ==> r == Err::<Beat, ConvertError>(ConvertError::UnrecognizedVariant(gpif@.rhythms[beat@.rhythm as int].note_value)),
{
    let ghost g = gpif@;
    let ridx = beat.rhythm_ref.rhythm;
    if ridx as usize >= gpif.rhythms.rythms.len() {
        return Err(ConvertError::BrokenReference(crate::convert::Collection::Rhythms, ridx as i64));
    }
    let rhythm = &gpif.rhythms.rythms[ridx as usize];
    assert(*rhythm == g.rhythms[ridx as int]);
    let duration = rhythm_to_duration(rhythm)?;
    let mut notes: Vec<Note> = Vec::new();
    match &beat.notes {
        None => {},
        Some(ids) => {
            for k in 0..ids.vec.len()
                invariant
                    g == gpif@,
                    beat@.notes == Some(ids@),
                    in_range(beat@.rhythm as int, g.rhythms.len()),
                    note_class(g.rhythms[beat@.rhythm as int].note_value@) is Some,
                    notes@.len() == k,
                    forall|j: int| 0 <= j < k ==> in_range(#[trigger] ids@[j], g.notes.len())
                        && note_matches(notes@[j], g.notes[ids@[j]]),
            {
                let id = ids.vec[k];
                assert(note_ids(beat@)[k as int] == id as int);
                if id < 0 || id as u64 >= gpif.notes.notes.len() as u64 {
                    return Err(ConvertError::BrokenReference(Collection::Notes, id));
                }
                let n = note_to_note(&gpif.notes.notes[id as usize]);
                notes.push(n);
            }
        },
    }
    proof {
        if beat.notes is None {
            assert(note_ids(beat@) =~= Seq::<int>::empty());
        }
    }
    Ok(Beat { duration, notes })
}

/// Resolves one voice: each beat id into a beat.
pub fn voice_to_voice(voice: &crate::schema::Voice, gpif: &GPIF) -> (r: Result<Voice, ConvertError>)
    ensures
        r is Ok <==> voice_ok(gpif@, voice@, true),
        r matches Ok(v) ==> voice_matches(v, gpif@, voice@),
        r matches Err(ConvertError::BrokenReference(_, _)) ==> !voice_ok(gpif@, voice@, false),
        all_rhythms_known(gpif@) && !voice_ok(gpif@, voice@, false) ==> r matches Err(ConvertError::BrokenReference(_, _)),
        r matches Err(ConvertError::UnrecognizedVariant(_)) ==> !all_rhythms_known(gpif@),
        !(r matches Err(ConvertError::IrregularMasterBar(_))),
{
    let ghost g = gpif@;
    let ids = &voice.beats.vec;
    let mut beats: Vec<Beat> = Vec::new();
    for k in 0..ids.len()
        invariant
            g == gpif@,
            voice@ == ids@.map_values(|x: i64| x as int),
            beats@.len() == k,
            forall|j: int| 0 <= j < k ==> in_range(#[trigger] voice@[j], g.beats.len())
                && beat_ok(g, g.beats[voice@[j]], true)
                && beat_matches(beats@[j], g, g.beats[voice@[j]]),
    {
        let id = ids[k];
        assert(voice@[k as int] == id as int);
        if id < 0 || id as u64 >= gpif.beats.beats.len() as u64 {
            return Err(ConvertError::BrokenReference(Collection::Beats, id));
        }
        let b = beat_to_beat(&gpif.beats.beats[id as usize], gpif)?;
        beats.push(b);
    }
    Ok(Voice { beats })
}

proof fn lemma_present_take(ids: Seq<int>, k: int)
    requires
        0 <= k < ids.len(),
    ensures
        ids.take(k + 1).drop_last() =~= ids.take(k),
        present(ids.take(k + 1)) == if ids[k] < 0 {
            present(ids.take(k))
        } else {
            present(ids.take(k)).push(ids[k])
        },
{
    assert(ids.take(k + 1).drop_last() =~= ids.take(k));
}

proof fn lemma_present_ids(ids: Seq<int>)
    ensures
        forall|m: int| 0 <= m < present(ids).len() ==> #[trigger] present(ids)[m] >= 0 && ids.contains(present(ids)[m]),
    decreases ids.len(),
{
    if ids.len() > 0 {
        lemma_present_ids(ids.drop_last());
        assert forall|m: int| 0 <= m < present(ids).len() implies #[trigger] present(ids)[m] >= 0 && ids.contains(present(ids)[m]) by {
            if m < present(ids.drop_last()).len() {
                let x = present(ids.drop_last())[m];
                assert(ids.drop_last().contains(x));
                let j = choose|j: int| 0 <= j < ids.drop_last().len() && ids.drop_last()[j] == x;
                assert(ids[j] == x);
            } else {
                assert(ids[ids.len() - 1] == ids.last());
            }
        }
    }
}

/// Resolves one bar: each voice id into a voice, skipping empty slots.
pub fn bar_to_measure(bar: &crate::schema::Bar, gpif: &GPIF) -> (r: Result<Measure, ConvertError>)
    ensures
        r is Ok <==> bar_ok(gpif@, bar@, true),
        r matches Ok(m) ==> measure_matches(m, gpif@, bar@),
        r matches Err(ConvertError::BrokenReference(_, _)) ==> !bar_ok(gpif@, bar@, false),
        all_rhythms_known(gpif@) && !bar_ok(gpif@, bar@, false) ==> r matches Err(ConvertError::BrokenReference(_, _)),
        r matches Err(ConvertError::UnrecognizedVariant(_)) ==> !all_rhythms_known(gpif@),
        !(r matches Err(ConvertError::IrregularMasterBar(_))),
{
    let ghost g = gpif@;
    let ghost vs = bar@.voices;
    let ids = &bar.voices.vec;
    let mut voices: Vec<Voice> = Vec::new();
    proof {
        assert(vs.take(0) =~= Seq::<int>::empty());
    }
    for k in 0..ids.len()
        invariant
            g == gpif@,
            vs == bar@.voices,
            vs == ids@.map_values(|x: i64| x as int),
            voices@.len() == present(vs.take(k as int)).len(),
            forall|j: int| 0 <= j < k ==> (#[trigger] vs[j]) < 0
                || in_range(vs[j], g.voices.len()) && voice_ok(g, g.voices[vs[j]], true),
            forall|m: int| 0 <= m < voices@.len() ==> voice_matches(#[trigger] voices@[m], g, g.voices[present(vs.take(k as int))[m]]),
    {
        let id = ids[k];
        assert(vs[k as int] == id as int);
        proof {
            lemma_present_take(vs, k as int);
        }
        if id >= 0 {
            if id as u64 >= gpif.voices.voices.len() as u64 {
                return Err(ConvertError::BrokenReference(Collection::Voices, id));
            }
            let v = voice_to_voice(&gpif.voices.voices[id as usize], gpif)?;
            voices.push(v);
        }
    }
    proof {
        assert(vs.take(vs.len() as int) =~= vs);
    }
    Ok(Measure { voices })
}

/// Resolves the master bars into tracks: track `t` holds, for each master
/// bar in order, the measure of the `t`-th bar it lists.
pub fn masterbars_to_tracks(masterbars: &MasterBars, gpif: &GPIF) -> (r: Result<Vec<Track>, ConvertError>)
    requires
        masterbars@ == gpif@.master_bars,
    ensures
        r is Ok <==> regular(gpif@) && refs_ok(gpif@, true),
        r matches Ok(ts) ==> tracks_match(ts@, gpif@),
        r matches Err(ConvertError::IrregularMasterBar(_)) <==> !regular(gpif@),
        r matches Err(ConvertError::BrokenReference(_, _)) ==> regular(gpif@) && !refs_ok(gpif@, false),
        regular(gpif@) && all_rhythms_known(gpif@) && !refs_ok(gpif@, false) ==> r matches Err(ConvertError::BrokenReference(_, _)),
        r matches Err(ConvertError::UnrecognizedVariant(_)) ==> regular(gpif@) && !all_rhythms_known(gpif@),
{
    let ghost g = gpif@;
    let mbs = &masterbars.master_bars;
    let num_tracks: usize = if mbs.len() == 0 {
        0
    } else {
        mbs[0].bars.len()
    };
    for i in 0..mbs.len()
        invariant
            g == gpif@,
            masterbars@ == g.master_bars,
            mbs@ == masterbars.master_bars@,
            num_tracks == track_count(g),
            forall|j: int| 0 <= j < i ==> (#[trigger] g.master_bars[j]).bars.len() == track_count(g),
    {
        assert(g.master_bars[i as int] == mbs@[i as int]@);
        if mbs[i].bars.len() != num_tracks {
            return Err(ConvertError::IrregularMasterBar(i));
        }
    }
    let mut tracks: Vec<Track> = Vec::new();
    for t in 0..num_tracks
        invariant
            g == gpif@,
            masterbars@ == g.master_bars,
            mbs@ == masterbars.master_bars@,
            num_tracks == track_count(g),
            regular(g),
            tracks@.len() == t,
            forall|t2: int, i: int| 0 <= t2 < t && 0 <= i < g.master_bars.len() ==> #[trigger] slot_ok(g, i, t2, true),
            forall|t2: int| 0 <= t2 < t ==> track_matches(#[trigger] tracks@[t2], g, t2),
    {
        let mut measures: Vec<Measure> = Vec::new();
        for i in 0..mbs.len()
            invariant
                g == gpif@,
                masterbars@ == g.master_bars,
                mbs@ == masterbars.master_bars@,
                num_tracks == track_count(g),
                regular(g),
                t < num_tracks,
                measures@.len() == i,
                forall|i2: int| 0 <= i2 < i ==> #[trigger] slot_ok(g, i2, t as int, true),
                forall|i2: int| 0 <= i2 < i ==> measure_matches(#[trigger] measures@[i2], g, g.bars[g.master_bars[i2].bars[t as int]]),
        {
            assert(g.master_bars[i as int] == mbs@[i as int]@);
            assert(g.master_bars[i as int].bars.len() == num_tracks);
            let id = mbs[i].bars.vec[t];
            assert(g.master_bars[i as int].bars[t as int] == id as int);
            if id < 0 || id as u64 >= gpif.bars.bars.len() as u64 {
                proof {
                    assert(!slot_ok(g, i as int, t as int, false));
                    assert(!slot_ok(g, i as int, t as int, true));
                }
                return Err(ConvertError::BrokenReference(Collection::Bars, id));
            }
            let m = match bar_to_measure(&gpif.bars.bars[id as usize], gpif) {
                Ok(m) => m,
                Err(e) => {
                    proof {
                        assert(!slot_ok(g, i as int, t as int, true));
                        if e is BrokenReference {
                            assert(!slot_ok(g, i as int, t as int, false));
                        }
                    }
                    return Err(e);
                },
            };
            measures.push(m);
        }
        tracks.push(Track { measures });
    }
    proof {
        if all_rhythms_known(g) {
            law_resolution_iff_ids_in_range(g);
        }
    }
    Ok(tracks)
}

/// Resolves a whole document into its tracks.
pub fn gpif_to_tracks(gpif: &GPIF) -> (r: Result<Vec<Track>, ConvertError>)
    ensures
        r is Ok <==> regular(gpif@) && refs_ok(gpif@, true),
        r matches Ok(ts) ==> tracks_match(ts@, gpif@),
        r matches Err(ConvertError::IrregularMasterBar(_)) <==> !regular(gpif@),
        r matches Err(ConvertError::BrokenReference(_, _)) ==> regular(gpif@) && !refs_ok(gpif@, false),
        regular(gpif@) && all_rhythms_known(gpif@) && !refs_ok(gpif@, false) ==> r matches Err(ConvertError::BrokenReference(_, _)),
        r matches Err(ConvertError::UnrecognizedVariant(_)) ==> regular(gpif@) && !all_rhythms_known(gpif@),
{
    masterbars_to_tracks(&gpif.master_bars, gpif)
}

proof fn lemma_beat_ok_values(g: GpifView, b: BeatView)
    requires
        all_rhythms_known(g),
    ensures
        beat_ok(g, b, true) <==> beat_ok(g, b, false),
{
    if in_range(b.rhythm as int, g.rhythms.len()) {
        assert(note_class(g.rhythms[b.rhythm as int].note_value@) is Some);
    }
}

proof fn lemma_voice_ok_values(g: GpifView, v: Seq<int>)
    requires
        all_rhythms_known(g),
    ensures
        voice_ok(g, v, true) <==> voice_ok(g, v, false),
{
    assert forall|k: int| 0 <= k < v.len() && in_range(v[k], g.beats.len()) implies
        (beat_ok(g, g.beats[v[k]], true) <==> beat_ok(g, g.beats[v[k]], false)) by {
        lemma_beat_ok_values(g, g.beats[v[k]]);
    }
}

proof fn lemma_bar_ok_values(g: GpifView, b: BarView)
    requires
        all_rhythms_known(g),
    ensures
        bar_ok(g, b, true) <==> bar_ok(g, b, false),
{
    assert forall|k: int| 0 <= k < b.voices.len() && in_range(b.voices[k], g.voices.len()) implies
        (voice_ok(g, g.voices[b.voices[k]], true) <==> voice_ok(g, g.voices[b.voices[k]], false)) by {
        lemma_voice_ok_values(g, g.voices[b.voices[k]]);
    }
}

/// With master bars of equal width and every note value known, resolution
/// succeeds exactly when every id it follows lies within its collection, a
/// negative voice id being an empty slot; otherwise it fails with
/// `BrokenReference` (see the contract of `gpif_to_tracks`).
pub proof fn law_resolution_iff_ids_in_range(g: GpifView)
    requires
        regular(g),
        all_rhythms_known(g),
    ensures
        refs_ok(g, true) <==> refs_ok(g, false),
{
    assert forall|i: int, t: int| 0 <= i < g.master_bars.len() && 0 <= t < track_count(g) implies
        (#[trigger] slot_ok(g, i, t, true) <==> slot_ok(g, i, t, false)) by {
        let id = g.master_bars[i].bars[t];
        if in_range(id, g.bars.len()) {
            lemma_bar_ok_values(g, g.bars[id]);
        }
    }
    if refs_ok(g, false) {
        assert forall|i: int, t: int| 0 <= i < g.master_bars.len() && 0 <= t < track_count(g) implies
            #[trigger] slot_ok(g, i, t, true) by {
            assert(slot_ok(g, i, t, false));
        }
    }
    if refs_ok(g, true) {
        assert forall|i: int, t: int| 0 <= i < g.master_bars.len() && 0 <= t < track_count(g) implies
            #[trigger] slot_ok(g, i, t, false) by {
            assert(slot_ok(g, i, t, true));
        }
    }
}

/// The note-value table: `Whole` is class 0, `Half` 1, `Quarter` 2,
/// `Eighth` 3, `16th` 4 and `32nd` 5.
pub proof fn law_note_value_table()
    ensures
        note_class("Whole"@) == Some(0u8),
        note_class("Half"@) == Some(1u8),
        note_class("Quarter"@) == Some(2u8),
        note_class("Eighth"@) == Some(3u8),
        note_class("16th"@) == Some(4u8),
        note_class("32nd"@) == Some(5u8),
{
    reveal_strlit("Whole");
    reveal_strlit("Half");
    reveal_strlit("Quarter");
    reveal_strlit("Eighth");
    reveal_strlit("16th");
    reveal_strlit("32nd");
    assert("Half"@[0] == 'H' && "16th"@[0] == '1' && "32nd"@[0] == '3');
    assert("Whole"@.len() == 5 && "Quarter"@.len() == 7 && "Eighth"@.len() == 6);
}

/// A rhythm with a known note value and neither dots nor tuplet decodes to
/// its class, undotted, lasting `3840 / 2^class` ticks exactly.
pub proof fn law_plain_rhythm_duration(r: Rhythm, c: u8)
    requires
        note_class(r.note_value@) == Some(c),
        r.primary_tuplet is None,
        r.augmentation_dot is None,
    ensures
        rhythm_duration(r, c).value == c,
        !rhythm_duration(r, c).dotted,
        !rhythm_duration(r, c).double_dotted,
        tick_time(rhythm_duration(r, c)) == DURATION_WHOLE_TIME as nat / pow2(c as nat),
{
}

} // verus!
