//! Readers for the entities of a score document. Each reads exactly its
//! element's subtree; child elements may come in any order, and children it
//! does not know are skipped whole.
use crate::cursor::{
    attr_lookup, close_named_at, children_from, element_start_at, group_cursor_bounds, skip_child,
    text_element_at, Field, ReaderExt, XmlError,
};
use crate::text::{chars_of, decimal_in, id_list, parse_decimal, parse_id_list, same_text};
use crate::property::{properties_from, read_properties, NoteProperty};
use crate::token::XmlToken;
use vstd::prelude::*;

verus! {

broadcast use group_cursor_bounds;

/// An ordered list of ids, written as space-separated integers.
#[derive(Debug, PartialEq, Eq)]
pub struct IdVec {
    pub vec: Vec<i64>,
}

impl View for IdVec {
    type V = Seq<int>;

    open spec fn view(&self) -> Seq<int> {
        self.vec@.map_values(|x: i64| x as int)
    }
}

impl IdVec {
    pub fn len(&self) -> (r: usize)
        ensures
            r == self@.len(),
    {
        self.vec.len()
    }

    /// Reads the id list wrapped in the next element, which must be named
    /// `name`; each id must lie in `[lo, hi]`, and no text is no ids.
    pub fn read(reader: &mut ReaderExt, name: &str, lo: i64, hi: i64) -> (r: Result<IdVec, XmlError>)
        requires
            -0x1_0000_0000 <= lo,
            hi <= 0x1_0000_0000,
        ensures
            final(reader).toks() == old(reader).toks(),
            match ids_element_at(old(reader).toks(), old(reader).at(), name@, lo as int, hi as int) {
                Ok((v, q)) => r matches Ok(w) && w@ == v && final(reader).at() == q,
                Err(e) => r == Err::<IdVec, XmlError>(e),
            },
    {
        match reader.text_element(name)? {
            None => {
                let r = IdVec { vec: Vec::new() };
                assert(r@ =~= Seq::<int>::empty());
                Ok(r)
            },
            Some(t) => match parse_id_list(t.as_str(), lo, hi) {
                Some(vec) => Ok(IdVec { vec }),
                None => Err(XmlError::InvalidNumber(t)),
            },
        }
    }
}

/// The ids that the optional text `t` lists; no text is no ids.
pub open spec fn ids_of(t: Option<String>, lo: int, hi: int) -> Result<Seq<int>, XmlError> {
    match t {
        None => Ok(Seq::empty()),
        Some(s) => match id_list(s@, lo, hi) {
            Some(v) => Ok(v),
            None => Err(XmlError::InvalidNumber(s)),
        },
    }
}

/// The id list wrapped in the next element, named `name`.
pub open spec fn ids_element_at(ts: Seq<XmlToken>, p: nat, name: Seq<char>, lo: int, hi: int) -> Result<(Seq<int>, nat), XmlError> {
    match text_element_at(ts, p, name) {
        Err(e) => Err(e),
        Ok((t, q)) => match ids_of(t, lo, hi) {
            Ok(v) => Ok((v, q)),
            Err(e) => Err(e),
        },
    }
}

pub open spec fn opt_ids(o: Option<IdVec>) -> Option<Seq<int>> {
    match o {
        Some(v) => Some(v@),
        None => None,
    }
}

/// The number in attribute `key` of the element at `p`, when it lies in `[0, hi]`.
pub open spec fn attr_number(ts: Seq<XmlToken>, p: nat, key: Seq<char>, hi: int, missing: Field) -> Result<int, XmlError> {
    match attr_lookup(ts, p + 1, key) {
        None => Err(XmlError::Missing(missing)),
        Some(v) => match decimal_in(v@, 0, hi) {
            Some(x) => Ok(x),
            None => Err(XmlError::InvalidNumber(v)),
        },
    }
}

fn read_attr_number(reader: &ReaderExt, key: &str, hi: i64, missing: Field) -> (r: Result<i64, XmlError>)
    requires
        0 <= hi <= 0x1_0000_0000,
    ensures
        match attr_number(reader.toks(), reader.at(), key@, hi as int, missing) {
            Ok(x) => r == Ok::<i64, XmlError>(x as i64) && x == r->Ok_0 as int,
            Err(e) => r == Err::<i64, XmlError>(e),
        },
{
    match reader.attr_value(key) {
        None => Err(XmlError::Missing(missing)),
        Some(v) => {
            let cs = chars_of(v.as_str());
            match parse_decimal(&cs, 0, hi) {
                Some(x) => Ok(x),
                None => Err(XmlError::InvalidNumber(v)),
            }
        },
    }
}

// ---------------------------------------------------------------- rhythms

/// A tuplet ratio as written: `num` notes in the time of `den`.
#[derive(Debug, PartialEq, Eq, Clone, Copy)]
pub struct PrimaryTuplet {
    pub num: u8,
    pub den: u8,
}

/// Augmentation dots: one or two.
#[derive(Debug, PartialEq, Eq, Clone, Copy)]
pub struct AugmentationDot {
    pub count: u8,
}

/// A shared duration definition.
#[derive(Debug, PartialEq, Eq)]
pub struct Rhythm {
    pub note_value: String,
    pub primary_tuplet: Option<PrimaryTuplet>,
    pub augmentation_dot: Option<AugmentationDot>,
}

pub type RhythmSlots = (Option<String>, Option<PrimaryTuplet>, Option<AugmentationDot>);

/// A `PrimaryTuplet` element at `p`, with `num` and `den` attributes.
pub open spec fn tuplet_at(ts: Seq<XmlToken>, p: nat) -> Result<(PrimaryTuplet, nat), XmlError> {
    match attr_number(ts, p, "num"@, 255, Field::TupletNum) {
        Err(e) => Err(e),
        Ok(num) => match attr_number(ts, p, "den"@, 255, Field::TupletDen) {
            Err(e) => Err(e),
            Ok(den) => match crate::cursor::subtree_end(ts, p, 0) {
                Err(e) => Err(e),
                Ok(q) => Ok((PrimaryTuplet { num: num as u8, den: den as u8 }, q)),
            },
        },
    }
}

/// An `AugmentationDot` element at `p`, with a `count` attribute.
pub open spec fn dot_at(ts: Seq<XmlToken>, p: nat) -> Result<(AugmentationDot, nat), XmlError> {
    match attr_number(ts, p, "count"@, 255, Field::DotCount) {
        Err(e) => Err(e),
        Ok(count) => match crate::cursor::subtree_end(ts, p, 0) {
            Err(e) => Err(e),
            Ok(q) => Ok((AugmentationDot { count: count as u8 }, q)),
        },
    }
}

pub open spec fn rhythm_step(ts: Seq<XmlToken>) -> spec_fn(String, nat, RhythmSlots) -> Result<(RhythmSlots, nat), XmlError> {
    |n: String, p: nat, s: RhythmSlots|
        if n@ == "NoteValue"@ {
            match text_element_at(ts, p, "NoteValue"@) {
                Ok((t, q)) => Ok(((t, s.1, s.2), q)),
                Err(e) => Err(e),
            }
        } else if n@ == "PrimaryTuplet"@ {
            match tuplet_at(ts, p) {
                Ok((t, q)) => Ok(((s.0, Some(t), s.2), q)),
                Err(e) => Err(e),
            }
        } else if n@ == "AugmentationDot"@ {
            match dot_at(ts, p) {
                Ok((d, q)) => Ok(((s.0, s.1, Some(d)), q)),
                Err(e) => Err(e),
            }
        } else {
            skip_child(ts, p, s)
        }
}

/// The next `Rhythm` element.
pub open spec fn rhythm_at(ts: Seq<XmlToken>, p: nat) -> Result<(Rhythm, nat), XmlError> {
    match element_start_at(ts, p, "Rhythm"@) {
        Err(e) => Err(e),
        Ok(p1) => match children_from(ts, p1, "Rhythm"@, (None, None, None), rhythm_step(ts)) {
            Err(e) => Err(e),
            Ok(((nv, tuplet, dot), q)) => match nv {
                Some(note_value) => Ok((Rhythm { note_value, primary_tuplet: tuplet, augmentation_dot: dot }, q)),
                None => Err(XmlError::Missing(Field::NoteValue)),
            },
        },
    }
}

impl Rhythm {
    /// Reads the next `Rhythm` element.
    pub fn read(reader: &mut ReaderExt) -> (r: Result<Rhythm, XmlError>)
        ensures
            final(reader).toks() == old(reader).toks(),
            match rhythm_at(old(reader).toks(), old(reader).at()) {
                Ok((v, q)) => r == Ok::<Rhythm, XmlError>(v) && final(reader).at() == q,
                Err(e) => r == Err::<Rhythm, XmlError>(e),
            },
    {
        reader.skip_to_open()?;
        reader.open_tag_named("Rhythm")?;
        let ghost start = reader.at();
        let ghost ts = reader.toks();
        let mut note_value: Option<String> = None;
        let mut primary_tuplet: Option<PrimaryTuplet> = None;
        let mut augmentation_dot: Option<AugmentationDot> = None;
        loop
            invariant_except_break
                children_from(ts, reader.at(), "Rhythm"@, (note_value, primary_tuplet, augmentation_dot), rhythm_step(ts))
                    == children_from(ts, start, "Rhythm"@, (None, None, None), rhythm_step(ts)),
            invariant
                reader.toks() == ts,
                ts == old(reader).toks(),
                element_start_at(ts, old(reader).at(), "Rhythm"@) == Ok::<nat, XmlError>(start),
            ensures
                reader.toks() == ts,
                children_from(ts, start, "Rhythm"@, (None, None, None), rhythm_step(ts))
                    == Ok::<(RhythmSlots, nat), XmlError>(((note_value, primary_tuplet, augmentation_dot), reader.at())),
            decreases ts.len() - reader.at(),
        {
            match reader.next_child("Rhythm")? {
                None => break,
                Some(n) => {
                    let q = reader.pos;
                    if same_text(n.as_str(), "NoteValue") {
                        note_value = reader.text_element("NoteValue")?;
                    } else if same_text(n.as_str(), "PrimaryTuplet") {
                        let num = read_attr_number(reader, "num", 255, Field::TupletNum)?;
                        let den = read_attr_number(reader, "den", 255, Field::TupletDen)?;
                        reader.skip_element()?;
                        primary_tuplet = Some(PrimaryTuplet { num: num as u8, den: den as u8 });
                    } else if same_text(n.as_str(), "AugmentationDot") {
                        let count = read_attr_number(reader, "count", 255, Field::DotCount)?;
                        reader.skip_element()?;
                        augmentation_dot = Some(AugmentationDot { count: count as u8 });
                    } else {
                        reader.skip_element()?;
                    }
                    // Every child reader consumes at least the child's start tag.
                    if reader.pos <= q || reader.pos > reader.tokens.len() {
                        return Err(XmlError::Syntax);
                    }
                },
            }
        }
        match note_value {
            Some(note_value) => Ok(Rhythm { note_value, primary_tuplet, augmentation_dot }),
            None => Err(XmlError::Missing(Field::NoteValue)),
        }
    }
}


// ---------------------------------------------------------------- bars and beats

pub type TextIds = (Option<String>, Option<Seq<int>>);

/// One vertical slice across all tracks: one bar id per track.
#[derive(Debug, PartialEq, Eq)]
pub struct MasterBar {
    pub time: Option<String>,
    pub bars: IdVec,
}

pub ghost struct MasterBarView {
    pub time: Option<String>,
    pub bars: Seq<int>,
}

impl View for MasterBar {
    type V = MasterBarView;

    open spec fn view(&self) -> MasterBarView {
        MasterBarView { time: self.time, bars: self.bars@ }
    }
}

pub open spec fn masterbar_step(ts: Seq<XmlToken>) -> spec_fn(String, nat, TextIds) -> Result<(TextIds, nat), XmlError> {
    |n: String, p: nat, s: TextIds|
        if n@ == "Time"@ {
            match text_element_at(ts, p, "Time"@) {
                Ok((t, q)) => Ok(((t, s.1), q)),
                Err(e) => Err(e),
            }
        } else if n@ == "Bars"@ {
            match ids_element_at(ts, p, "Bars"@, 0, 0xffff) {
                Ok((v, q)) => Ok(((s.0, Some(v)), q)),
                Err(e) => Err(e),
            }
        } else {
            skip_child(ts, p, s)
        }
}

/// The next `MasterBar` element: optional `Time` text, required `Bars` ids.
pub open spec fn masterbar_at(ts: Seq<XmlToken>, p: nat) -> Result<(MasterBarView, nat), XmlError> {
    match element_start_at(ts, p, "MasterBar"@) {
        Err(e) => Err(e),
        Ok(p1) => match children_from(ts, p1, "MasterBar"@, (None, None), masterbar_step(ts)) {
            Err(e) => Err(e),
            Ok(((time, bars), q)) => match bars {
                Some(b) => Ok((MasterBarView { time, bars: b }, q)),
                None => Err(XmlError::Missing(Field::BarIds)),
            },
        },
    }
}

impl MasterBar {
    /// Reads the next `MasterBar` element.
    pub fn read(reader: &mut ReaderExt) -> (r: Result<MasterBar, XmlError>)
        ensures
            final(reader).toks() == old(reader).toks(),
            match masterbar_at(old(reader).toks(), old(reader).at()) {
                Ok((v, q)) => r matches Ok(w) && w@ == v && final(reader).at() == q,
                Err(e) => r == Err::<MasterBar, XmlError>(e),
            },
    {
        reader.skip_to_open()?;
        reader.open_tag_named("MasterBar")?;
        let ghost start = reader.at();
        let ghost ts = reader.toks();
        let mut time: Option<String> = None;
        let mut bars: Option<IdVec> = None;
        loop
            invariant_except_break
                children_from(ts, reader.at(), "MasterBar"@, (time, opt_ids(bars)), masterbar_step(ts))
                    == children_from(ts, start, "MasterBar"@, (None, None), masterbar_step(ts)),
            invariant
                reader.toks() == ts,
                ts == old(reader).toks(),
                element_start_at(ts, old(reader).at(), "MasterBar"@) == Ok::<nat, XmlError>(start),
            ensures
                children_from(ts, start, "MasterBar"@, (None, None), masterbar_step(ts))
                    == Ok::<(TextIds, nat), XmlError>(((time, opt_ids(bars)), reader.at())),
            decreases ts.len() - reader.at(),
        {
            match reader.next_child("MasterBar")? {
                None => break,
                Some(n) => {
                    let q = reader.pos;
                    if same_text(n.as_str(), "Time") {
                        time = reader.text_element("Time")?;
                    } else if same_text(n.as_str(), "Bars") {
                        bars = Some(IdVec::read(reader, "Bars", 0, 0xffff)?);
                    } else {
                        reader.skip_element()?;
                    }
                    // Every child reader consumes at least the child's start tag.
                    if reader.pos <= q || reader.pos > reader.tokens.len() {
                        return Err(XmlError::Syntax);
                    }
                },
            }
        }
        match bars {
            Some(bars) => Ok(MasterBar { time, bars }),
            None => Err(XmlError::Missing(Field::BarIds)),
        }
    }
}

/// One measure of one track: its voices by id, `-1` for an empty slot.
#[derive(Debug, PartialEq, Eq)]
pub struct Bar {
    pub clef: Option<String>,
    pub voices: IdVec,
}

pub ghost struct BarView {
    pub clef: Option<String>,
    pub voices: Seq<int>,
}

impl View for Bar {
    type V = BarView;

    open spec fn view(&self) -> BarView {
        BarView { clef: self.clef, voices: self.voices@ }
    }
}

pub open spec fn bar_step(ts: Seq<XmlToken>) -> spec_fn(String, nat, TextIds) -> Result<(TextIds, nat), XmlError> {
    |n: String, p: nat, s: TextIds|
        if n@ == "Clef"@ {
            match text_element_at(ts, p, "Clef"@) {
                Ok((t, q)) => Ok(((t, s.1), q)),
                Err(e) => Err(e),
            }
        } else if n@ == "Voices"@ {
            match ids_element_at(ts, p, "Voices"@, -0x8000, 0x7fff) {
                Ok((v, q)) => Ok(((s.0, Some(v)), q)),
                Err(e) => Err(e),
            }
        } else {
            skip_child(ts, p, s)
        }
}

/// The next `Bar` element: optional `Clef` text, required `Voices` ids.
pub open spec fn bar_at(ts: Seq<XmlToken>, p: nat) -> Result<(BarView, nat), XmlError> {
    match element_start_at(ts, p, "Bar"@) {
        Err(e) => Err(e),
        Ok(p1) => match children_from(ts, p1, "Bar"@, (None, None), bar_step(ts)) {
            Err(e) => Err(e),
            Ok(((clef, voices), q)) => match voices {
                Some(v) => Ok((BarView { clef, voices: v }, q)),
                None => Err(XmlError::Missing(Field::VoiceIds)),
            },
        },
    }
}

impl Bar {
    /// Reads the next `Bar` element.
    pub fn read(reader: &mut ReaderExt) -> (r: Result<Bar, XmlError>)
        ensures
            final(reader).toks() == old(reader).toks(),
            match bar_at(old(reader).toks(), old(reader).at()) {
                Ok((v, q)) => r matches Ok(w) && w@ == v && final(reader).at() == q,
                Err(e) => r == Err::<Bar, XmlError>(e),
            },
    {
        reader.skip_to_open()?;
        reader.open_tag_named("Bar")?;
        let ghost start = reader.at();
        let ghost ts = reader.toks();
        let mut clef: Option<String> = None;
        let mut voices: Option<IdVec> = None;
        loop
            invariant_except_break
                children_from(ts, reader.at(), "Bar"@, (clef, opt_ids(voices)), bar_step(ts))
                    == children_from(ts, start, "Bar"@, (None, None), bar_step(ts)),
            invariant
                reader.toks() == ts,
                ts == old(reader).toks(),
                element_start_at(ts, old(reader).at(), "Bar"@) == Ok::<nat, XmlError>(start),
            ensures
                children_from(ts, start, "Bar"@, (None, None), bar_step(ts))
                    == Ok::<(TextIds, nat), XmlError>(((clef, opt_ids(voices)), reader.at())),
            decreases ts.len() - reader.at(),
        {
            match reader.next_child("Bar")? {
                None => break,
                Some(n) => {
                    let q = reader.pos;
                    if same_text(n.as_str(), "Clef") {
                        clef = reader.text_element("Clef")?;
                    } else if same_text(n.as_str(), "Voices") {
                        voices = Some(IdVec::read(reader, "Voices", -0x8000, 0x7fff)?);
                    } else {
                        reader.skip_element()?;
                    }
                    // Every child reader consumes at least the child's start tag.
                    if reader.pos <= q || reader.pos > reader.tokens.len() {
                        return Err(XmlError::Syntax);
                    }
                },
            }
        }
        match voices {
            Some(voices) => Ok(Bar { clef, voices }),
            None => Err(XmlError::Missing(Field::VoiceIds)),
        }
    }
}

/// One rhythmic layer of a bar: its beats by id.
#[derive(Debug, PartialEq, Eq)]
pub struct Voice {
    pub beats: IdVec,
}

impl View for Voice {
    type V = Seq<int>;

    open spec fn view(&self) -> Seq<int> {
        self.beats@
    }
}

pub open spec fn voice_step(ts: Seq<XmlToken>) -> spec_fn(String, nat, Option<Seq<int>>) -> Result<(Option<Seq<int>>, nat), XmlError> {
    |n: String, p: nat, s: Option<Seq<int>>|
        if n@ == "Beats"@ {
            match ids_element_at(ts, p, "Beats"@, 0, 0xffff) {
                Ok((v, q)) => Ok((Some(v), q)),
                Err(e) => Err(e),
            }
        } else {
            skip_child(ts, p, s)
        }
}

/// The next `Voice` element: its required `Beats` ids.
pub open spec fn voice_at(ts: Seq<XmlToken>, p: nat) -> Result<(Seq<int>, nat), XmlError> {
    match element_start_at(ts, p, "Voice"@) {
        Err(e) => Err(e),
        Ok(p1) => match children_from(ts, p1, "Voice"@, None, voice_step(ts)) {
            Err(e) => Err(e),
            Ok((beats, q)) => match beats {
                Some(b) => Ok((b, q)),
                None => Err(XmlError::Missing(Field::BeatIds)),
            },
        },
    }
}

impl Voice {
    /// Reads the next `Voice` element.
    pub fn read(reader: &mut ReaderExt) -> (r: Result<Voice, XmlError>)
        ensures
            final(reader).toks() == old(reader).toks(),
            match voice_at(old(reader).toks(), old(reader).at()) {
                Ok((v, q)) => r matches Ok(w) && w@ == v && final(reader).at() == q,
                Err(e) => r == Err::<Voice, XmlError>(e),
            },
    {
        reader.skip_to_open()?;
        reader.open_tag_named("Voice")?;
        let ghost start = reader.at();
        let ghost ts = reader.toks();
        let mut beats: Option<IdVec> = None;
        loop
            invariant_except_break
                children_from(ts, reader.at(), "Voice"@, opt_ids(beats), voice_step(ts))
                    == children_from(ts, start, "Voice"@, None::<Seq<int>>, voice_step(ts)),
            invariant
                reader.toks() == ts,
                ts == old(reader).toks(),
                element_start_at(ts, old(reader).at(), "Voice"@) == Ok::<nat, XmlError>(start),
            ensures
                children_from(ts, start, "Voice"@, None::<Seq<int>>, voice_step(ts))
                    == Ok::<(Option<Seq<int>>, nat), XmlError>((opt_ids(beats), reader.at())),
            decreases ts.len() - reader.at(),
        {
            match reader.next_child("Voice")? {
                None => break,
                Some(n) => {
                    let q = reader.pos;
                    if same_text(n.as_str(), "Beats") {
                        beats = Some(IdVec::read(reader, "Beats", 0, 0xffff)?);
                    } else {
                        reader.skip_element()?;
                    }
                    // Every child reader consumes at least the child's start tag.
                    if reader.pos <= q || reader.pos > reader.tokens.len() {
                        return Err(XmlError::Syntax);
                    }
                },
            }
        }
        match beats {
            Some(beats) => Ok(Voice { beats }),
            None => Err(XmlError::Missing(Field::BeatIds)),
        }
    }
}

/// The rhythm a beat refers to, by id.
#[derive(Debug, PartialEq, Eq, Clone, Copy)]
pub struct RhythmRef {
    pub rhythm: u32,
}

/// One rhythmic event: a rhythm by id and its notes by id (none for a rest).
#[derive(Debug, PartialEq, Eq)]
pub struct Beat {
    pub rhythm_ref: RhythmRef,
    pub notes: Option<IdVec>,
}

pub ghost struct BeatView {
    pub rhythm: u32,
    pub notes: Option<Seq<int>>,
}

impl View for Beat {
    type V = BeatView;

    open spec fn view(&self) -> BeatView {
        BeatView { rhythm: self.rhythm_ref.rhythm, notes: opt_ids(self.notes) }
    }
}

pub type RefIds = (Option<u32>, Option<Seq<int>>);

/// A `Rhythm` reference element at `p`: its `ref` attribute.
pub open spec fn rhythm_ref_at(ts: Seq<XmlToken>, p: nat) -> Result<(u32, nat), XmlError> {
    match attr_number(ts, p, "ref"@, 0xffff_ffff, Field::RhythmRef) {
        Err(e) => Err(e),
        Ok(x) => match crate::cursor::subtree_end(ts, p, 0) {
            Err(e) => Err(e),
            Ok(q) => Ok((x as u32, q)),
        },
    }
}

pub open spec fn beat_step(ts: Seq<XmlToken>) -> spec_fn(String, nat, RefIds) -> Result<(RefIds, nat), XmlError> {
    |n: String, p: nat, s: RefIds|
        if n@ == "Rhythm"@ {
            match rhythm_ref_at(ts, p) {
                Ok((x, q)) => Ok(((Some(x), s.1), q)),
                Err(e) => Err(e),
            }
        } else if n@ == "Notes"@ {
            match ids_element_at(ts, p, "Notes"@, 0, 0xffff) {
                Ok((v, q)) => Ok(((s.0, Some(v)), q)),
                Err(e) => Err(e),
            }
        } else {
            skip_child(ts, p, s)
        }
}

/// The next `Beat` element: a required `Rhythm` reference, optional `Notes` ids.
pub open spec fn beat_at(ts: Seq<XmlToken>, p: nat) -> Result<(BeatView, nat), XmlError> {
    match element_start_at(ts, p, "Beat"@) {
        Err(e) => Err(e),
        Ok(p1) => match children_from(ts, p1, "Beat"@, (None, None), beat_step(ts)) {
            Err(e) => Err(e),
            Ok(((rhythm, notes), q)) => match rhythm {
                Some(x) => Ok((BeatView { rhythm: x, notes }, q)),
                None => Err(XmlError::Missing(Field::Rhythm)),
            },
        },
    }
}

impl Beat {
    /// Reads the next `Beat` element.
    pub fn read(reader: &mut ReaderExt) -> (r: Result<Beat, XmlError>)
        ensures
            final(reader).toks() == old(reader).toks(),
            match beat_at(old(reader).toks(), old(reader).at()) {
                Ok((v, q)) => r matches Ok(w) && w@ == v && final(reader).at() == q,
                Err(e) => r == Err::<Beat, XmlError>(e),
            },
    {
        reader.skip_to_open()?;
        reader.open_tag_named("Beat")?;
        let ghost start = reader.at();
        let ghost ts = reader.toks();
        let mut rhythm: Option<u32> = None;
        let mut notes: Option<IdVec> = None;
        loop
            invariant_except_break
                children_from(ts, reader.at(), "Beat"@, (rhythm, opt_ids(notes)), beat_step(ts))
                    == children_from(ts, start, "Beat"@, (None, None), beat_step(ts)),
            invariant
                reader.toks() == ts,
                ts == old(reader).toks(),
                element_start_at(ts, old(reader).at(), "Beat"@) == Ok::<nat, XmlError>(start),
            ensures
                children_from(ts, start, "Beat"@, (None, None), beat_step(ts))
                    == Ok::<(RefIds, nat), XmlError>(((rhythm, opt_ids(notes)), reader.at())),
            decreases ts.len() - reader.at(),
        {
            match reader.next_child("Beat")? {
                None => break,
                Some(n) => {
                    let q = reader.pos;
                    if same_text(n.as_str(), "Rhythm") {
                        let x = read_attr_number(reader, "ref", 0xffff_ffff, Field::RhythmRef)?;
                        reader.skip_element()?;
                        rhythm = Some(x as u32);
                    } else if same_text(n.as_str(), "Notes") {
                        notes = Some(IdVec::read(reader, "Notes", 0, 0xffff)?);
                    } else {
                        reader.skip_element()?;
                    }
                    // Every child reader consumes at least the child's start tag.
                    if reader.pos <= q || reader.pos > reader.tokens.len() {
                        return Err(XmlError::Syntax);
                    }
                },
            }
        }
        match rhythm {
            Some(x) => Ok(Beat { rhythm_ref: RhythmRef { rhythm: x }, notes }),
            None => Err(XmlError::Missing(Field::Rhythm)),
        }
    }
}

/// The properties of a note, in document order.
#[derive(Debug, PartialEq, Eq)]
pub struct Properties {
    pub properties: Vec<NoteProperty>,
}

/// One note: its articulation and its property block.
#[derive(Debug, PartialEq, Eq)]
pub struct Note {
    pub instrument_articulation: Option<String>,
    pub properties: Properties,
}

pub ghost struct NoteView {
    pub articulation: Option<String>,
    pub properties: Seq<NoteProperty>,
}

impl View for Note {
    type V = NoteView;

    open spec fn view(&self) -> NoteView {
        NoteView { articulation: self.instrument_articulation, properties: self.properties.properties@ }
    }
}

impl Note {
    pub fn properties(&self) -> (r: &Vec<NoteProperty>)
        ensures
            r@ == self@.properties,
    {
        &self.properties.properties
    }
}

pub type TextProps = (Option<String>, Option<Seq<NoteProperty>>);

/// A `Properties` element from `p` on: its property block and the position past it.
pub open spec fn properties_block_at(ts: Seq<XmlToken>, p: nat) -> Result<(Seq<NoteProperty>, nat), XmlError> {
    match element_start_at(ts, p, "Properties"@) {
        Err(e) => Err(e),
        Ok(p1) => match properties_from(ts, p1, Seq::empty()) {
            Err(e) => Err(e),
            Ok((props, q)) => match close_named_at(ts, q, "Properties"@) {
                Err(e) => Err(e),
                Ok(r) => Ok((props, r)),
            },
        },
    }
}

pub open spec fn note_step(ts: Seq<XmlToken>) -> spec_fn(String, nat, TextProps) -> Result<(TextProps, nat), XmlError> {
    |n: String, p: nat, s: TextProps|
        if n@ == "InstrumentArticulation"@ {
            match text_element_at(ts, p, "InstrumentArticulation"@) {
                Ok((t, q)) => Ok(((t, s.1), q)),
                Err(e) => Err(e),
            }
        } else if n@ == "Properties"@ {
            match properties_block_at(ts, p) {
                Ok((v, q)) => Ok(((s.0, Some(v)), q)),
                Err(e) => Err(e),
            }
        } else {
            skip_child(ts, p, s)
        }
}

/// The next `Note` element: optional articulation text and property block.
pub open spec fn note_at(ts: Seq<XmlToken>, p: nat) -> Result<(NoteView, nat), XmlError> {
    match element_start_at(ts, p, "Note"@) {
        Err(e) => Err(e),
        Ok(p1) => match children_from(ts, p1, "Note"@, (None, None), note_step(ts)) {
            Err(e) => Err(e),
            Ok(((articulation, props), q)) => Ok((
                NoteView {
                    articulation,
                    properties: match props {
                        Some(v) => v,
                        None => Seq::empty(),
                    },
                },
                q,
            )),
        },
    }
}

pub open spec fn opt_props(o: Option<Vec<NoteProperty>>) -> Option<Seq<NoteProperty>> {
    match o {
        Some(v) => Some(v@),
        None => None,
    }
}

fn read_properties_block(reader: &mut ReaderExt) -> (r: Result<Vec<NoteProperty>, XmlError>)
    ensures
        final(reader).toks() == old(reader).toks(),
        match properties_block_at(old(reader).toks(), old(reader).at()) {
            Ok((v, q)) => r matches Ok(w) && w@ == v && final(reader).at() == q,
            Err(e) => r == Err::<Vec<NoteProperty>, XmlError>(e),
        },
{
    reader.skip_to_open()?;
    reader.open_tag_named("Properties")?;
    let props = read_properties(reader)?;
    reader.close_tag_named("Properties")?;
    Ok(props)
}

impl Note {
    /// Reads the next `Note` element.
    pub fn read(reader: &mut ReaderExt) -> (r: Result<Note, XmlError>)
        ensures
            final(reader).toks() == old(reader).toks(),
            match note_at(old(reader).toks(), old(reader).at()) {
                Ok((v, q)) => r matches Ok(w) && w@ == v && final(reader).at() == q,
                Err(e) => r == Err::<Note, XmlError>(e),
            },
    {
        reader.skip_to_open()?;
        reader.open_tag_named("Note")?;
        let ghost start = reader.at();
        let ghost ts = reader.toks();
        let mut articulation: Option<String> = None;
        let mut props: Option<Vec<NoteProperty>> = None;
        loop
            invariant_except_break
                children_from(ts, reader.at(), "Note"@, (articulation, opt_props(props)), note_step(ts))
                    == children_from(ts, start, "Note"@, (None, None), note_step(ts)),
            invariant
                reader.toks() == ts,
                ts == old(reader).toks(),
                element_start_at(ts, old(reader).at(), "Note"@) == Ok::<nat, XmlError>(start),
            ensures
                children_from(ts, start, "Note"@, (None, None), note_step(ts))
                    == Ok::<(TextProps, nat), XmlError>(((articulation, opt_props(props)), reader.at())),
            decreases ts.len() - reader.at(),
        {
            match reader.next_child("Note")? {
                None => break,
                Some(n) => {
                    let q = reader.pos;
                    if same_text(n.as_str(), "InstrumentArticulation") {
                        articulation = reader.text_element("InstrumentArticulation")?;
                    } else if same_text(n.as_str(), "Properties") {
                        props = Some(read_properties_block(reader)?);
                    } else {
                        reader.skip_element()?;
                    }
                    // Every child reader consumes at least the child's start tag.
                    if reader.pos <= q || reader.pos > reader.tokens.len() {
                        return Err(XmlError::Syntax);
                    }
                },
            }
        }
        let properties = match props {
            Some(v) => v,
            None => Vec::new(),
        };
        Ok(Note { instrument_articulation: articulation, properties: Properties { properties } })
    }
}

pub open spec fn views_master_bars(s: Seq<MasterBar>) -> Seq<MasterBarView> {
    s.map_values(|x: MasterBar| x@)
}

/// The `MasterBars` collection.
#[derive(Debug, PartialEq, Eq)]
pub struct MasterBars {
    pub master_bars: Vec<MasterBar>,
}

impl View for MasterBars {
    type V = Seq<MasterBarView>;

    open spec fn view(&self) -> Seq<MasterBarView> {
        views_master_bars(self.master_bars@)
    }
}

pub open spec fn masterbars_step(ts: Seq<XmlToken>) -> spec_fn(String, nat, Seq<MasterBarView>) -> Result<(Seq<MasterBarView>, nat), XmlError> {
    |n: String, p: nat, acc: Seq<MasterBarView>|
        if n@ == "MasterBar"@ {
            match masterbar_at(ts, p) {
                Ok((v, q)) => Ok((acc.push(v), q)),
                Err(e) => Err(e),
            }
        } else {
            skip_child(ts, p, acc)
        }
}

/// The next `MasterBars` element: its `MasterBar` children in order.
pub open spec fn masterbars_at(ts: Seq<XmlToken>, p: nat) -> Result<(Seq<MasterBarView>, nat), XmlError> {
    match element_start_at(ts, p, "MasterBars"@) {
        Err(e) => Err(e),
        Ok(p1) => children_from(ts, p1, "MasterBars"@, Seq::<MasterBarView>::empty(), masterbars_step(ts)),
    }
}

impl MasterBars {
    /// Reads the next `MasterBars` element.
    pub fn read(reader: &mut ReaderExt) -> (r: Result<MasterBars, XmlError>)
        ensures
            final(reader).toks() == old(reader).toks(),
            match masterbars_at(old(reader).toks(), old(reader).at()) {
                Ok((v, q)) => r matches Ok(w) && w@ == v && final(reader).at() == q,
                Err(e) => r == Err::<MasterBars, XmlError>(e),
            },
    {
        reader.skip_to_open()?;
        reader.open_tag_named("MasterBars")?;
        let ghost start = reader.at();
        let ghost ts = reader.toks();
        let mut items: Vec<MasterBar> = Vec::new();
        proof {
            assert(views_master_bars(items@) =~= Seq::<MasterBarView>::empty());
        }
        loop
            invariant_except_break
                children_from(ts, reader.at(), "MasterBars"@, views_master_bars(items@), masterbars_step(ts))
                    == children_from(ts, start, "MasterBars"@, Seq::<MasterBarView>::empty(), masterbars_step(ts)),
            invariant
                reader.toks() == ts,
                ts == old(reader).toks(),
                element_start_at(ts, old(reader).at(), "MasterBars"@) == Ok::<nat, XmlError>(start),
            ensures
                children_from(ts, start, "MasterBars"@, Seq::<MasterBarView>::empty(), masterbars_step(ts))
                    == Ok::<(Seq<MasterBarView>, nat), XmlError>((views_master_bars(items@), reader.at())),
            decreases ts.len() - reader.at(),
        {
            match reader.next_child("MasterBars")? {
                None => break,
                Some(n) => {
                    let q = reader.pos;
                    if same_text(n.as_str(), "MasterBar") {
                        let item = MasterBar::read(reader)?;
                        proof {
                            assert(views_master_bars(items@.push(item)) =~= views_master_bars(items@).push(item@));
                        }
                        items.push(item);
                    } else {
                        reader.skip_element()?;
                    }
                    // Every child reader consumes at least the child's start tag.
                    if reader.pos <= q || reader.pos > reader.tokens.len() {
                        return Err(XmlError::Syntax);
                    }
                },
            }
        }
        Ok(MasterBars { master_bars: items })
    }
}

pub open spec fn views_bars(s: Seq<Bar>) -> Seq<BarView> {
    s.map_values(|x: Bar| x@)
}

/// The `Bars` collection.
#[derive(Debug, PartialEq, Eq)]
pub struct Bars {
    pub bars: Vec<Bar>,
}

impl View for Bars {
    type V = Seq<BarView>;

    open spec fn view(&self) -> Seq<BarView> {
        views_bars(self.bars@)
    }
}

pub open spec fn bars_step(ts: Seq<XmlToken>) -> spec_fn(String, nat, Seq<BarView>) -> Result<(Seq<BarView>, nat), XmlError> {
    |n: String, p: nat, acc: Seq<BarView>|
        if n@ == "Bar"@ {
            match bar_at(ts, p) {
                Ok((v, q)) => Ok((acc.push(v), q)),
                Err(e) => Err(e),
            }
        } else {
            skip_child(ts, p, acc)
        }
}

/// The next `Bars` element: its `Bar` children in order.
pub open spec fn bars_at(ts: Seq<XmlToken>, p: nat) -> Result<(Seq<BarView>, nat), XmlError> {
    match element_start_at(ts, p, "Bars"@) {
        Err(e) => Err(e),
        Ok(p1) => children_from(ts, p1, "Bars"@, Seq::<BarView>::empty(), bars_step(ts)),
    }
}

impl Bars {
    /// Reads the next `Bars` element.
    pub fn read(reader: &mut ReaderExt) -> (r: Result<Bars, XmlError>)
        ensures
            final(reader).toks() == old(reader).toks(),
            match bars_at(old(reader).toks(), old(reader).at()) {
                Ok((v, q)) => r matches Ok(w) && w@ == v && final(reader).at() == q,
                Err(e) => r == Err::<Bars, XmlError>(e),
            },
    {
        reader.skip_to_open()?;
        reader.open_tag_named("Bars")?;
        let ghost start = reader.at();
        let ghost ts = reader.toks();
        let mut items: Vec<Bar> = Vec::new();
        proof {
            assert(views_bars(items@) =~= Seq::<BarView>::empty());
        }
        loop
            invariant_except_break
                children_from(ts, reader.at(), "Bars"@, views_bars(items@), bars_step(ts))
                    == children_from(ts, start, "Bars"@, Seq::<BarView>::empty(), bars_step(ts)),
            invariant
                reader.toks() == ts,
                ts == old(reader).toks(),
                element_start_at(ts, old(reader).at(), "Bars"@) == Ok::<nat, XmlError>(start),
            ensures
                children_from(ts, start, "Bars"@, Seq::<BarView>::empty(), bars_step(ts))
                    == Ok::<(Seq<BarView>, nat), XmlError>((views_bars(items@), reader.at())),
            decreases ts.len() - reader.at(),
        {
            match reader.next_child("Bars")? {
                None => break,
                Some(n) => {
                    let q = reader.pos;
                    if same_text(n.as_str(), "Bar") {
                        let item = Bar::read(reader)?;
                        proof {
                            assert(views_bars(items@.push(item)) =~= views_bars(items@).push(item@));
                        }
                        items.push(item);
                    } else {
                        reader.skip_element()?;
                    }
                    // Every child reader consumes at least the child's start tag.
                    if reader.pos <= q || reader.pos > reader.tokens.len() {
                        return Err(XmlError::Syntax);
                    }
                },
            }
        }
        Ok(Bars { bars: items })
    }
}

pub open spec fn views_voices(s: Seq<Voice>) -> Seq<Seq<int>> {
    s.map_values(|x: Voice| x@)
}

/// The `Voices` collection.
#[derive(Debug, PartialEq, Eq)]
pub struct Voices {
    pub voices: Vec<Voice>,
}

impl View for Voices {
    type V = Seq<Seq<int>>;

    open spec fn view(&self) -> Seq<Seq<int>> {
        views_voices(self.voices@)
    }
}

pub open spec fn voices_step(ts: Seq<XmlToken>) -> spec_fn(String, nat, Seq<Seq<int>>) -> Result<(Seq<Seq<int>>, nat), XmlError> {
    |n: String, p: nat, acc: Seq<Seq<int>>|
        if n@ == "Voice"@ {
            match voice_at(ts, p) {
                Ok((v, q)) => Ok((acc.push(v), q)),
                Err(e) => Err(e),
            }
        } else {
            skip_child(ts, p, acc)
        }
}

/// The next `Voices` element: its `Voice` children in order.
pub open spec fn voices_at(ts: Seq<XmlToken>, p: nat) -> Result<(Seq<Seq<int>>, nat), XmlError> {
    match element_start_at(ts, p, "Voices"@) {
        Err(e) => Err(e),
        Ok(p1) => children_from(ts, p1, "Voices"@, Seq::<Seq<int>>::empty(), voices_step(ts)),
    }
}

impl Voices {
    /// Reads the next `Voices` element.
    pub fn read(reader: &mut ReaderExt) -> (r: Result<Voices, XmlError>)
        ensures
            final(reader).toks() == old(reader).toks(),
            match voices_at(old(reader).toks(), old(reader).at()) {
                Ok((v, q)) => r matches Ok(w) && w@ == v && final(reader).at() == q,
                Err(e) => r == Err::<Voices, XmlError>(e),
            },
    {
        reader.skip_to_open()?;
        reader.open_tag_named("Voices")?;
        let ghost start = reader.at();
        let ghost ts = reader.toks();
        let mut items: Vec<Voice> = Vec::new();
        proof {
            assert(views_voices(items@) =~= Seq::<Seq<int>>::empty());
        }
        loop
            invariant_except_break
                children_from(ts, reader.at(), "Voices"@, views_voices(items@), voices_step(ts))
                    == children_from(ts, start, "Voices"@, Seq::<Seq<int>>::empty(), voices_step(ts)),
            invariant
                reader.toks() == ts,
                ts == old(reader).toks(),
                element_start_at(ts, old(reader).at(), "Voices"@) == Ok::<nat, XmlError>(start),
            ensures
                children_from(ts, start, "Voices"@, Seq::<Seq<int>>::empty(), voices_step(ts))
                    == Ok::<(Seq<Seq<int>>, nat), XmlError>((views_voices(items@), reader.at())),
            decreases ts.len() - reader.at(),
        {
            match reader.next_child("Voices")? {
                None => break,
                Some(n) => {
                    let q = reader.pos;
                    if same_text(n.as_str(), "Voice") {
                        let item = Voice::read(reader)?;
                        proof {
                            assert(views_voices(items@.push(item)) =~= views_voices(items@).push(item@));
                        }
                        items.push(item);
                    } else {
                        reader.skip_element()?;
                    }
                    // Every child reader consumes at least the child's start tag.
                    if reader.pos <= q || reader.pos > reader.tokens.len() {
                        return Err(XmlError::Syntax);
                    }
                },
            }
        }
        Ok(Voices { voices: items })
    }
}

pub open spec fn views_beats(s: Seq<Beat>) -> Seq<BeatView> {
    s.map_values(|x: Beat| x@)
}

/// The `Beats` collection.
#[derive(Debug, PartialEq, Eq)]
pub struct Beats {
    pub beats: Vec<Beat>,
}

impl View for Beats {
    type V = Seq<BeatView>;

    open spec fn view(&self) -> Seq<BeatView> {
        views_beats(self.beats@)
    }
}

pub open spec fn beats_step(ts: Seq<XmlToken>) -> spec_fn(String, nat, Seq<BeatView>) -> Result<(Seq<BeatView>, nat), XmlError> {
    |n: String, p: nat, acc: Seq<BeatView>|
        if n@ == "Beat"@ {
            match beat_at(ts, p) {
                Ok((v, q)) => Ok((acc.push(v), q)),
                Err(e) => Err(e),
            }
        } else {
            skip_child(ts, p, acc)
        }
}

/// The next `Beats` element: its `Beat` children in order.
pub open spec fn beats_at(ts: Seq<XmlToken>, p: nat) -> Result<(Seq<BeatView>, nat), XmlError> {
    match element_start_at(ts, p, "Beats"@) {
        Err(e) => Err(e),
        Ok(p1) => children_from(ts, p1, "Beats"@, Seq::<BeatView>::empty(), beats_step(ts)),
    }
}

impl Beats {
    /// Reads the next `Beats` element.
    pub fn read(reader: &mut ReaderExt) -> (r: Result<Beats, XmlError>)
        ensures
            final(reader).toks() == old(reader).toks(),
            match beats_at(old(reader).toks(), old(reader).at()) {
                Ok((v, q)) => r matches Ok(w) && w@ == v && final(reader).at() == q,
                Err(e) => r == Err::<Beats, XmlError>(e),
            },
    {
        reader.skip_to_open()?;
        reader.open_tag_named("Beats")?;
        let ghost start = reader.at();
        let ghost ts = reader.toks();
        let mut items: Vec<Beat> = Vec::new();
        proof {
            assert(views_beats(items@) =~= Seq::<BeatView>::empty());
        }
        loop
            invariant_except_break
                children_from(ts, reader.at(), "Beats"@, views_beats(items@), beats_step(ts))
                    == children_from(ts, start, "Beats"@, Seq::<BeatView>::empty(), beats_step(ts)),
            invariant
                reader.toks() == ts,
                ts == old(reader).toks(),
                element_start_at(ts, old(reader).at(), "Beats"@) == Ok::<nat, XmlError>(start),
            ensures
                children_from(ts, start, "Beats"@, Seq::<BeatView>::empty(), beats_step(ts))
                    == Ok::<(Seq<BeatView>, nat), XmlError>((views_beats(items@), reader.at())),
            decreases ts.len() - reader.at(),
        {
            match reader.next_child("Beats")? {
                None => break,
                Some(n) => {
                    let q = reader.pos;
                    if same_text(n.as_str(), "Beat") {
                        let item = Beat::read(reader)?;
                        proof {
                            assert(views_beats(items@.push(item)) =~= views_beats(items@).push(item@));
                        }
                        items.push(item);
                    } else {
                        reader.skip_element()?;
                    }
                    // Every child reader consumes at least the child's start tag.
                    if reader.pos <= q || reader.pos > reader.tokens.len() {
                        return Err(XmlError::Syntax);
                    }
                },
            }
        }
        Ok(Beats { beats: items })
    }
}

pub open spec fn views_notes(s: Seq<Note>) -> Seq<NoteView> {
    s.map_values(|x: Note| x@)
}

/// The `Notes` collection.
#[derive(Debug, PartialEq, Eq)]
pub struct Notes {
    pub notes: Vec<Note>,
}

impl View for Notes {
    type V = Seq<NoteView>;

    open spec fn view(&self) -> Seq<NoteView> {
        views_notes(self.notes@)
    }
}

pub open spec fn notes_step(ts: Seq<XmlToken>) -> spec_fn(String, nat, Seq<NoteView>) -> Result<(Seq<NoteView>, nat), XmlError> {
    |n: String, p: nat, acc: Seq<NoteView>|
        if n@ == "Note"@ {
            match note_at(ts, p) {
                Ok((v, q)) => Ok((acc.push(v), q)),
                Err(e) => Err(e),
            }
        } else {
            skip_child(ts, p, acc)
        }
}

/// The next `Notes` element: its `Note` children in order.
pub open spec fn notes_at(ts: Seq<XmlToken>, p: nat) -> Result<(Seq<NoteView>, nat), XmlError> {
    match element_start_at(ts, p, "Notes"@) {
        Err(e) => Err(e),
        Ok(p1) => children_from(ts, p1, "Notes"@, Seq::<NoteView>::empty(), notes_step(ts)),
    }
}

impl Notes {
    /// Reads the next `Notes` element.
    pub fn read(reader: &mut ReaderExt) -> (r: Result<Notes, XmlError>)
        ensures
            final(reader).toks() == old(reader).toks(),
            match notes_at(old(reader).toks(), old(reader).at()) {
                Ok((v, q)) => r matches Ok(w) && w@ == v && final(reader).at() == q,
                Err(e) => r == Err::<Notes, XmlError>(e),
            },
    {
        reader.skip_to_open()?;
        reader.open_tag_named("Notes")?;
        let ghost start = reader.at();
        let ghost ts = reader.toks();
        let mut items: Vec<Note> = Vec::new();
        proof {
            assert(views_notes(items@) =~= Seq::<NoteView>::empty());
        }
        loop
            invariant_except_break
                children_from(ts, reader.at(), "Notes"@, views_notes(items@), notes_step(ts))
                    == children_from(ts, start, "Notes"@, Seq::<NoteView>::empty(), notes_step(ts)),
            invariant
                reader.toks() == ts,
                ts == old(reader).toks(),
                element_start_at(ts, old(reader).at(), "Notes"@) == Ok::<nat, XmlError>(start),
            ensures
                children_from(ts, start, "Notes"@, Seq::<NoteView>::empty(), notes_step(ts))
                    == Ok::<(Seq<NoteView>, nat), XmlError>((views_notes(items@), reader.at())),
            decreases ts.len() - reader.at(),
        {
            match reader.next_child("Notes")? {
                None => break,
                Some(n) => {
                    let q = reader.pos;
                    if same_text(n.as_str(), "Note") {
                        let item = Note::read(reader)?;
                        proof {
                            assert(views_notes(items@.push(item)) =~= views_notes(items@).push(item@));
                        }
                        items.push(item);
                    } else {
                        reader.skip_element()?;
                    }
                    // Every child reader consumes at least the child's start tag.
                    if reader.pos <= q || reader.pos > reader.tokens.len() {
                        return Err(XmlError::Syntax);
                    }
                },
            }
        }
        Ok(Notes { notes: items })
    }
}

impl View for Rhythm {
    type V = Rhythm;

    open spec fn view(&self) -> Rhythm {
        *self
    }
}

pub open spec fn views_rythms(s: Seq<Rhythm>) -> Seq<Rhythm> {
    s.map_values(|x: Rhythm| x@)
}

/// The `Rhythms` collection.
#[derive(Debug, PartialEq, Eq)]
pub struct Rhythms {
    pub rythms: Vec<Rhythm>,
}

impl View for Rhythms {
    type V = Seq<Rhythm>;

    open spec fn view(&self) -> Seq<Rhythm> {
        views_rythms(self.rythms@)
    }
}

pub open spec fn rhythms_step(ts: Seq<XmlToken>) -> spec_fn(String, nat, Seq<Rhythm>) -> Result<(Seq<Rhythm>, nat), XmlError> {
    |n: String, p: nat, acc: Seq<Rhythm>|
        if n@ == "Rhythm"@ {
            match rhythm_at(ts, p) {
                Ok((v, q)) => Ok((acc.push(v), q)),
                Err(e) => Err(e),
            }
        } else {
            skip_child(ts, p, acc)
        }
}

/// The next `Rhythms` element: its `Rhythm` children in order.
pub open spec fn rhythms_at(ts: Seq<XmlToken>, p: nat) -> Result<(Seq<Rhythm>, nat), XmlError> {
    match element_start_at(ts, p, "Rhythms"@) {
        Err(e) => Err(e),
        Ok(p1) => children_from(ts, p1, "Rhythms"@, Seq::<Rhythm>::empty(), rhythms_step(ts)),
    }
}

impl Rhythms {
    /// Reads the next `Rhythms` element.
    pub fn read(reader: &mut ReaderExt) -> (r: Result<Rhythms, XmlError>)
        ensures
            final(reader).toks() == old(reader).toks(),
            match rhythms_at(old(reader).toks(), old(reader).at()) {
                Ok((v, q)) => r matches Ok(w) && w@ == v && final(reader).at() == q,
                Err(e) => r == Err::<Rhythms, XmlError>(e),
            },
    {
        reader.skip_to_open()?;
        reader.open_tag_named("Rhythms")?;
        let ghost start = reader.at();
        let ghost ts = reader.toks();
        let mut items: Vec<Rhythm> = Vec::new();
        proof {
            assert(views_rythms(items@) =~= Seq::<Rhythm>::empty());
        }
        loop
            invariant_except_break
                children_from(ts, reader.at(), "Rhythms"@, views_rythms(items@), rhythms_step(ts))
                    == children_from(ts, start, "Rhythms"@, Seq::<Rhythm>::empty(), rhythms_step(ts)),
            invariant
                reader.toks() == ts,
                ts == old(reader).toks(),
                element_start_at(ts, old(reader).at(), "Rhythms"@) == Ok::<nat, XmlError>(start),
            ensures
                children_from(ts, start, "Rhythms"@, Seq::<Rhythm>::empty(), rhythms_step(ts))
                    == Ok::<(Seq<Rhythm>, nat), XmlError>((views_rythms(items@), reader.at())),
            decreases ts.len() - reader.at(),
        {
            match reader.next_child("Rhythms")? {
                None => break,
                Some(n) => {
                    let q = reader.pos;
                    if same_text(n.as_str(), "Rhythm") {
                        let item = Rhythm::read(reader)?;
                        proof {
                            assert(views_rythms(items@.push(item)) =~= views_rythms(items@).push(item@));
                        }
                        items.push(item);
                    } else {
                        reader.skip_element()?;
                    }
                    // Every child reader consumes at least the child's start tag.
                    if reader.pos <= q || reader.pos > reader.tokens.len() {
                        return Err(XmlError::Syntax);
                    }
                },
            }
        }
        Ok(Rhythms { rythms: items })
    }
}

// ---------------------------------------------------------------- score and document

/// Score metadata.
#[derive(Debug, PartialEq, Eq)]
pub struct Score {
    pub title: Option<String>,
    pub subtitle: Option<String>,
    pub artist: Option<String>,
    pub album: Option<String>,
    pub words: Option<String>,
    pub music: Option<String>,
    pub copyright: Option<String>,
    pub tabber: Option<String>,
    pub instructions: Option<String>,
    pub notices: Vec<Option<String>>,
}

pub ghost struct ScoreView {
    pub title: Option<String>,
    pub subtitle: Option<String>,
    pub artist: Option<String>,
    pub album: Option<String>,
    pub words: Option<String>,
    pub music: Option<String>,
    pub copyright: Option<String>,
    pub tabber: Option<String>,
    pub instructions: Option<String>,
    pub notices: Seq<Option<String>>,
}

impl View for Score {
    type V = ScoreView;

    open spec fn view(&self) -> ScoreView {
        ScoreView {
            title: self.title,
            subtitle: self.subtitle,
            artist: self.artist,
            album: self.album,
            words: self.words,
            music: self.music,
            copyright: self.copyright,
            tabber: self.tabber,
            instructions: self.instructions,
            notices: self.notices@,
        }
    }
}

pub open spec fn empty_score() -> ScoreView {
    ScoreView {
        title: None,
        subtitle: None,
        artist: None,
        album: None,
        words: None,
        music: None,
        copyright: None,
        tabber: None,
        instructions: None,
        notices: Seq::empty(),
    }
}

pub open spec fn score_step(ts: Seq<XmlToken>) -> spec_fn(String, nat, ScoreView) -> Result<(ScoreView, nat), XmlError> {
    |n: String, p: nat, s: ScoreView|
        if n@ == "Title"@ {
            match text_element_at(ts, p, "Title"@) {
                Ok((t, q)) => Ok((ScoreView { title: t, ..s }, q)),
                Err(e) => Err(e),
            }
        } else         if n@ == "SubTitle"@ {
            match text_element_at(ts, p, "SubTitle"@) {
                Ok((t, q)) => Ok((ScoreView { subtitle: t, ..s }, q)),
                Err(e) => Err(e),
            }
        } else         if n@ == "Artist"@ {
            match text_element_at(ts, p, "Artist"@) {
                Ok((t, q)) => Ok((ScoreView { artist: t, ..s }, q)),
                Err(e) => Err(e),
            }
        } else         if n@ == "Album"@ {
            match text_element_at(ts, p, "Album"@) {
                Ok((t, q)) => Ok((ScoreView { album: t, ..s }, q)),
                Err(e) => Err(e),
            }
        } else         if n@ == "Words"@ {
            match text_element_at(ts, p, "Words"@) {
                Ok((t, q)) => Ok((ScoreView { words: t, ..s }, q)),
                Err(e) => Err(e),
            }
        } else         if n@ == "Music"@ {
            match text_element_at(ts, p, "Music"@) {
                Ok((t, q)) => Ok((ScoreView { music: t, ..s }, q)),
                Err(e) => Err(e),
            }
        } else         if n@ == "Copyright"@ {
            match text_element_at(ts, p, "Copyright"@) {
                Ok((t, q)) => Ok((ScoreView { copyright: t, ..s }, q)),
                Err(e) => Err(e),
            }
        } else         if n@ == "Tabber"@ {
            match text_element_at(ts, p, "Tabber"@) {
                Ok((t, q)) => Ok((ScoreView { tabber: t, ..s }, q)),
                Err(e) => Err(e),
            }
        } else         if n@ == "Instructions"@ {
            match text_element_at(ts, p, "Instructions"@) {
                Ok((t, q)) => Ok((ScoreView { instructions: t, ..s }, q)),
                Err(e) => Err(e),
            }
        } else if n@ == "Notices"@ {
            match text_element_at(ts, p, "Notices"@) {
                Ok((t, q)) => Ok((ScoreView { notices: s.notices.push(t), ..s }, q)),
                Err(e) => Err(e),
            }
        } else {
            skip_child(ts, p, s)
        }
}

/// The next `Score` element: its text fields and its notices in order.
pub open spec fn score_at(ts: Seq<XmlToken>, p: nat) -> Result<(ScoreView, nat), XmlError> {
    match element_start_at(ts, p, "Score"@) {
        Err(e) => Err(e),
        Ok(p1) => children_from(ts, p1, "Score"@, empty_score(), score_step(ts)),
    }
}

impl Score {
    /// Reads the next `Score` element.
    pub fn read(reader: &mut ReaderExt) -> (r: Result<Score, XmlError>)
        ensures
            final(reader).toks() == old(reader).toks(),
            match score_at(old(reader).toks(), old(reader).at()) {
                Ok((v, q)) => r matches Ok(w) && w@ == v && final(reader).at() == q,
                Err(e) => r == Err::<Score, XmlError>(e),
            },
    {
        reader.skip_to_open()?;
        reader.open_tag_named("Score")?;
        let ghost start = reader.at();
        let ghost ts = reader.toks();
        let mut score = Score {
            title: None,
            subtitle: None,
            artist: None,
            album: None,
            words: None,
            music: None,
            copyright: None,
            tabber: None,
            instructions: None,
            notices: Vec::new(),
        };
        proof {
            assert(score@ =~= empty_score());
        }
        loop
            invariant_except_break
                children_from(ts, reader.at(), "Score"@, score@, score_step(ts))
                    == children_from(ts, start, "Score"@, empty_score(), score_step(ts)),
            invariant
                reader.toks() == ts,
                ts == old(reader).toks(),
                element_start_at(ts, old(reader).at(), "Score"@) == Ok::<nat, XmlError>(start),
            ensures
                children_from(ts, start, "Score"@, empty_score(), score_step(ts))
                    == Ok::<(ScoreView, nat), XmlError>((score@, reader.at())),
            decreases ts.len() - reader.at(),
        {
            match reader.next_child("Score")? {
                None => break,
                Some(n) => {
                    let q = reader.pos;
                    if same_text(n.as_str(), "Title") {
                        score.title = reader.text_element("Title")?;
                    } else                     if same_text(n.as_str(), "SubTitle") {
                        score.subtitle = reader.text_element("SubTitle")?;
                    } else                     if same_text(n.as_str(), "Artist") {
                        score.artist = reader.text_element("Artist")?;
                    } else                     if same_text(n.as_str(), "Album") {
                        score.album = reader.text_element("Album")?;
                    } else                     if same_text(n.as_str(), "Words") {
                        score.words = reader.text_element("Words")?;
                    } else                     if same_text(n.as_str(), "Music") {
                        score.music = reader.text_element("Music")?;
                    } else                     if same_text(n.as_str(), "Copyright") {
                        score.copyright = reader.text_element("Copyright")?;
                    } else                     if same_text(n.as_str(), "Tabber") {
                        score.tabber = reader.text_element("Tabber")?;
                    } else                     if same_text(n.as_str(), "Instructions") {
                        score.instructions = reader.text_element("Instructions")?;
                    } else if same_text(n.as_str(), "Notices") {
                        let t = reader.text_element("Notices")?;
                        score.notices.push(t);
                    } else {
                        reader.skip_element()?;
                    }
                    // Every child reader consumes at least the child's start tag.
                    if reader.pos <= q || reader.pos > reader.tokens.len() {
                        return Err(XmlError::Syntax);
                    }
                },
            }
        }
        Ok(score)
    }
}

/// Master track data: the track list as written.
#[derive(Debug, PartialEq, Eq)]
pub struct MasterTrack {
    pub tracks: Option<String>,
}

pub open spec fn master_track_step(ts: Seq<XmlToken>) -> spec_fn(String, nat, Option<String>) -> Result<(Option<String>, nat), XmlError> {
    |n: String, p: nat, s: Option<String>|
        if n@ == "Tracks"@ {
            text_element_at(ts, p, "Tracks"@)
        } else {
            skip_child(ts, p, s)
        }
}

/// The next `MasterTrack` element: its optional `Tracks` text.
pub open spec fn master_track_at(ts: Seq<XmlToken>, p: nat) -> Result<(MasterTrack, nat), XmlError> {
    match element_start_at(ts, p, "MasterTrack"@) {
        Err(e) => Err(e),
        Ok(p1) => match children_from(ts, p1, "MasterTrack"@, None, master_track_step(ts)) {
            Err(e) => Err(e),
            Ok((tracks, q)) => Ok((MasterTrack { tracks }, q)),
        },
    }
}

impl MasterTrack {
    /// Reads the next `MasterTrack` element.
    pub fn read(reader: &mut ReaderExt) -> (r: Result<MasterTrack, XmlError>)
        ensures
            final(reader).toks() == old(reader).toks(),
            match master_track_at(old(reader).toks(), old(reader).at()) {
                Ok((v, q)) => r == Ok::<MasterTrack, XmlError>(v) && final(reader).at() == q,
                Err(e) => r == Err::<MasterTrack, XmlError>(e),
            },
    {
        reader.skip_to_open()?;
        reader.open_tag_named("MasterTrack")?;
        let ghost start = reader.at();
        let ghost ts = reader.toks();
        let mut tracks: Option<String> = None;
        loop
            invariant_except_break
                children_from(ts, reader.at(), "MasterTrack"@, tracks, master_track_step(ts))
                    == children_from(ts, start, "MasterTrack"@, None::<String>, master_track_step(ts)),
            invariant
                reader.toks() == ts,
                ts == old(reader).toks(),
                element_start_at(ts, old(reader).at(), "MasterTrack"@) == Ok::<nat, XmlError>(start),
            ensures
                children_from(ts, start, "MasterTrack"@, None::<String>, master_track_step(ts))
                    == Ok::<(Option<String>, nat), XmlError>((tracks, reader.at())),
            decreases ts.len() - reader.at(),
        {
            match reader.next_child("MasterTrack")? {
                None => break,
                Some(n) => {
                    let q = reader.pos;
                    if same_text(n.as_str(), "Tracks") {
                        tracks = reader.text_element("Tracks")?;
                    } else {
                        reader.skip_element()?;
                    }
                    // Every child reader consumes at least the child's start tag.
                    if reader.pos <= q || reader.pos > reader.tokens.len() {
                        return Err(XmlError::Syntax);
                    }
                },
            }
        }
        Ok(MasterTrack { tracks })
    }
}

/// A whole score document.
#[derive(Debug, PartialEq, Eq)]
pub struct GPIF {
    pub gpversion: Option<String>,
    pub master_track: Option<MasterTrack>,
    pub score: Score,
    pub master_bars: MasterBars,
    pub bars: Bars,
    pub voices: Voices,
    pub beats: Beats,
    pub notes: Notes,
    pub rhythms: Rhythms,
}

pub ghost struct GpifView {
    pub gpversion: Option<String>,
    pub master_track: Option<MasterTrack>,
    pub score: ScoreView,
    pub master_bars: Seq<MasterBarView>,
    pub bars: Seq<BarView>,
    pub voices: Seq<Seq<int>>,
    pub beats: Seq<BeatView>,
    pub notes: Seq<NoteView>,
    pub rhythms: Seq<Rhythm>,
}

impl View for GPIF {
    type V = GpifView;

    open spec fn view(&self) -> GpifView {
        GpifView {
            gpversion: self.gpversion,
            master_track: self.master_track,
            score: self.score@,
            master_bars: self.master_bars@,
            bars: self.bars@,
            voices: self.voices@,
            beats: self.beats@,
            notes: self.notes@,
            rhythms: self.rhythms@,
        }
    }
}

pub ghost struct GpifSlots {
    pub gpversion: Option<String>,
    pub master_track: Option<MasterTrack>,
    pub score: Option<ScoreView>,
    pub master_bars: Option<Seq<MasterBarView>>,
    pub bars: Option<Seq<BarView>>,
    pub voices: Option<Seq<Seq<int>>>,
    pub beats: Option<Seq<BeatView>>,
    pub notes: Option<Seq<NoteView>>,
    pub rhythms: Option<Seq<Rhythm>>,
}

pub open spec fn no_slots() -> GpifSlots {
    GpifSlots {
        gpversion: None,
        master_track: None,
        score: None,
        master_bars: None,
        bars: None,
        voices: None,
        beats: None,
        notes: None,
        rhythms: None,
    }
}

pub open spec fn gpif_step(ts: Seq<XmlToken>) -> spec_fn(String, nat, GpifSlots) -> Result<(GpifSlots, nat), XmlError> {
    |n: String, p: nat, s: GpifSlots|
        if n@ == "GPVersion"@ {
            match text_element_at(ts, p, "GPVersion"@) {
                Ok((t, q)) => Ok((GpifSlots { gpversion: t, ..s }, q)),
                Err(e) => Err(e),
            }
        } else if n@ == "MasterTrack"@ {
            match master_track_at(ts, p) {
                Ok((v, q)) => Ok((GpifSlots { master_track: Some(v), ..s }, q)),
                Err(e) => Err(e),
            }
        } else if n@ == "Score"@ {
            match score_at(ts, p) {
                Ok((v, q)) => Ok((GpifSlots { score: Some(v), ..s }, q)),
                Err(e) => Err(e),
            }
        } else if n@ == "MasterBars"@ {
            match masterbars_at(ts, p) {
                Ok((v, q)) => Ok((GpifSlots { master_bars: Some(v), ..s }, q)),
                Err(e) => Err(e),
            }
        } else if n@ == "Bars"@ {
            match bars_at(ts, p) {
                Ok((v, q)) => Ok((GpifSlots { bars: Some(v), ..s }, q)),
                Err(e) => Err(e),
            }
        } else if n@ == "Voices"@ {
            match voices_at(ts, p) {
                Ok((v, q)) => Ok((GpifSlots { voices: Some(v), ..s }, q)),
                Err(e) => Err(e),
            }
        } else if n@ == "Beats"@ {
            match beats_at(ts, p) {
                Ok((v, q)) => Ok((GpifSlots { beats: Some(v), ..s }, q)),
                Err(e) => Err(e),
            }
        } else if n@ == "Notes"@ {
            match notes_at(ts, p) {
                Ok((v, q)) => Ok((GpifSlots { notes: Some(v), ..s }, q)),
                Err(e) => Err(e),
            }
        } else if n@ == "Rhythms"@ {
            match rhythms_at(ts, p) {
                Ok((v, q)) => Ok((GpifSlots { rhythms: Some(v), ..s }, q)),
                Err(e) => Err(e),
            }
        } else {
            skip_child(ts, p, s)
        }
}

/// The `GPIF` element from `p` on: every collection is required, the
/// version and master track are optional.
pub open spec fn gpif_at(ts: Seq<XmlToken>, p: nat) -> Result<(GpifView, nat), XmlError> {
    match element_start_at(ts, p, "GPIF"@) {
        Err(e) => Err(e),
        Ok(p1) => match children_from(ts, p1, "GPIF"@, no_slots(), gpif_step(ts)) {
            Err(e) => Err(e),
            Ok((s, q)) => {
            if s.score is None {
                Err(XmlError::Missing(Field::Score))
            } else             if s.master_bars is None {
                Err(XmlError::Missing(Field::MasterBars))
            } else             if s.bars is None {
                Err(XmlError::Missing(Field::Bars))
            } else             if s.voices is None {
                Err(XmlError::Missing(Field::Voices))
            } else             if s.beats is None {
                Err(XmlError::Missing(Field::Beats))
            } else             if s.notes is None {
                Err(XmlError::Missing(Field::Notes))
            } else             if s.rhythms is None {
                Err(XmlError::Missing(Field::Rhythms))
            } else {
                Ok((GpifView {
                    gpversion: s.gpversion,
                    master_track: s.master_track,
                    score: s.score->0,
                    master_bars: s.master_bars->0,
                    bars: s.bars->0,
                    voices: s.voices->0,
                    beats: s.beats->0,
                    notes: s.notes->0,
                    rhythms: s.rhythms->0,
                }, q))
            }
            },
        },
    }
}

pub open spec fn opt_view<T: View>(o: Option<T>) -> Option<T::V> {
    match o {
        Some(v) => Some(v@),
        None => None,
    }
}

impl GPIF {
    /// Reads the next `GPIF` element.
    pub fn read(reader: &mut ReaderExt) -> (r: Result<GPIF, XmlError>)
        ensures
            final(reader).toks() == old(reader).toks(),
            match gpif_at(old(reader).toks(), old(reader).at()) {
                Ok((v, q)) => r matches Ok(w) && w@ == v && final(reader).at() == q,
                Err(e) => r == Err::<GPIF, XmlError>(e),
            },
    {
        reader.skip_to_open()?;
        reader.open_tag_named("GPIF")?;
        let ghost start = reader.at();
        let ghost ts = reader.toks();
        let mut gpversion: Option<String> = None;
        let mut master_track: Option<MasterTrack> = None;
        let mut score: Option<Score> = None;
        let mut master_bars: Option<MasterBars> = None;
        let mut bars: Option<Bars> = None;
        let mut voices: Option<Voices> = None;
        let mut beats: Option<Beats> = None;
        let mut notes: Option<Notes> = None;
        let mut rhythms: Option<Rhythms> = None;
        loop
            invariant_except_break
                children_from(ts, reader.at(), "GPIF"@, GpifSlots { gpversion, master_track, score: opt_view(score), master_bars: opt_view(master_bars), bars: opt_view(bars), voices: opt_view(voices), beats: opt_view(beats), notes: opt_view(notes), rhythms: opt_view(rhythms) }, gpif_step(ts))
                    == children_from(ts, start, "GPIF"@, no_slots(), gpif_step(ts)),
            invariant
                reader.toks() == ts,
                ts == old(reader).toks(),
                element_start_at(ts, old(reader).at(), "GPIF"@) == Ok::<nat, XmlError>(start),
            ensures
                children_from(ts, start, "GPIF"@, no_slots(), gpif_step(ts))
                    == Ok::<(GpifSlots, nat), XmlError>((GpifSlots { gpversion, master_track, score: opt_view(score), master_bars: opt_view(master_bars), bars: opt_view(bars), voices: opt_view(voices), beats: opt_view(beats), notes: opt_view(notes), rhythms: opt_view(rhythms) }, reader.at())),
            decreases ts.len() - reader.at(),
        {
            match reader.next_child("GPIF")? {
                None => break,
                Some(n) => {
                    let q = reader.pos;
                    if same_text(n.as_str(), "GPVersion") {
                        gpversion = reader.text_element("GPVersion")?;
                    } else if same_text(n.as_str(), "MasterTrack") {
                        master_track = Some(MasterTrack::read(reader)?);
                    } else if same_text(n.as_str(), "Score") {
                        score = Some(Score::read(reader)?);
                    } else if same_text(n.as_str(), "MasterBars") {
                        master_bars = Some(MasterBars::read(reader)?);
                    } else if same_text(n.as_str(), "Bars") {
                        bars = Some(Bars::read(reader)?);
                    } else if same_text(n.as_str(), "Voices") {
                        voices = Some(Voices::read(reader)?);
                    } else if same_text(n.as_str(), "Beats") {
                        beats = Some(Beats::read(reader)?);
                    } else if same_text(n.as_str(), "Notes") {
                        notes = Some(Notes::read(reader)?);
                    } else if same_text(n.as_str(), "Rhythms") {
                        rhythms = Some(Rhythms::read(reader)?);
                    } else {
                        reader.skip_element()?;
                    }
                    // Every child reader consumes at least the child's start tag.
                    if reader.pos <= q || reader.pos > reader.tokens.len() {
                        return Err(XmlError::Syntax);
                    }
                },
            }
        }
        let score = match score {
            Some(x) => x,
            None => {
                return Err(XmlError::Missing(Field::Score));
            },
        };
        let master_bars = match master_bars {
            Some(x) => x,
            None => {
                return Err(XmlError::Missing(Field::MasterBars));
            },
        };
        let bars = match bars {
            Some(x) => x,
            None => {
                return Err(XmlError::Missing(Field::Bars));
            },
        };
        let voices = match voices {
            Some(x) => x,
            None => {
                return Err(XmlError::Missing(Field::Voices));
            },
        };
        let beats = match beats {
            Some(x) => x,
            None => {
                return Err(XmlError::Missing(Field::Beats));
            },
        };
        let notes = match notes {
            Some(x) => x,
            None => {
                return Err(XmlError::Missing(Field::Notes));
            },
        };
        let rhythms = match rhythms {
            Some(x) => x,
            None => {
                return Err(XmlError::Missing(Field::Rhythms));
            },
        };
        Ok(GPIF { gpversion, master_track, score, master_bars, bars, voices, beats, notes, rhythms })
    }
}

} // verus!
