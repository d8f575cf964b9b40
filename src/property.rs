//! Property blocks: repeated `Property` elements told apart by their `name`
//! attribute, and the note properties they carry.
use crate::cursor::{
    text_body_at, attr_named_at, close_named_at, empty_tag_at, group_cursor_bounds, open_named_at,
    simple_text_at, skip_until, text_element_at, until_end_at, ReaderExt, Stop, XmlError,
};
use crate::text::{chars_of, decimal_in, parse_decimal, same_text};
use crate::token::XmlToken;
use vstd::prelude::*;

verus! {

broadcast use group_cursor_bounds;

/// A pitch: step letter, optional accidental, octave.
#[derive(Debug, PartialEq, Eq)]
pub struct Pitch {
    pub step: String,
    pub accidental: Option<String>,
    pub octave: u8,
}

/// One articulation property of a note.
#[derive(Debug, PartialEq, Eq)]
pub enum NoteProperty {
    ConcertPitch(Pitch),
    Fret(u8),
    Harmonic(bool),
    /// The harmonic fret as written: a decimal number.
    HarmonicFret(String),
    HarmonicType(String),
    HopoOrigin(bool),
    HopoDestination(bool),
    Tapped(bool),
    LeftHandTapped(bool),
    Midi(u8),
    Slide(u8),
    Muted(bool),
    PalmMuted(bool),
    String(u8),
    TransposedPitch(Pitch),
}

impl Pitch {
    /// A copy of this pitch.
    pub fn copied(&self) -> (r: Pitch)
        ensures
            r == *self,
    {
        let accidental = match &self.accidental {
            Some(a) => Some(a.clone()),
            None => None,
        };
        Pitch { step: self.step.clone(), accidental, octave: self.octave }
    }
}

impl NoteProperty {
    /// A copy of this property.
    pub fn copied(&self) -> (r: NoteProperty)
        ensures
            r == *self,
    {
        match self {
            NoteProperty::ConcertPitch(p) => NoteProperty::ConcertPitch(p.copied()),
            NoteProperty::Fret(v) => NoteProperty::Fret(*v),
            NoteProperty::Harmonic(b) => NoteProperty::Harmonic(*b),
            NoteProperty::HarmonicFret(t) => NoteProperty::HarmonicFret(t.clone()),
            NoteProperty::HarmonicType(t) => NoteProperty::HarmonicType(t.clone()),
            NoteProperty::HopoOrigin(b) => NoteProperty::HopoOrigin(*b),
            NoteProperty::HopoDestination(b) => NoteProperty::HopoDestination(*b),
            NoteProperty::Tapped(b) => NoteProperty::Tapped(*b),
            NoteProperty::LeftHandTapped(b) => NoteProperty::LeftHandTapped(*b),
            NoteProperty::Midi(v) => NoteProperty::Midi(*v),
            NoteProperty::Slide(v) => NoteProperty::Slide(*v),
            NoteProperty::Muted(b) => NoteProperty::Muted(*b),
            NoteProperty::PalmMuted(b) => NoteProperty::PalmMuted(*b),
            NoteProperty::String(v) => NoteProperty::String(*v),
            NoteProperty::TransposedPitch(p) => NoteProperty::TransposedPitch(p.copied()),
        }
    }
}

/// The number written in `t`, when it fits in a byte.
pub open spec fn byte_of(t: String) -> Result<u8, XmlError> {
    match decimal_in(t@, 0, 255) {
        Some(v) => Ok(v as u8),
        None => Err(XmlError::InvalidNumber(t)),
    }
}

/// A byte wrapped in the element `tag`.
pub open spec fn byte_element_at(ts: Seq<XmlToken>, p: nat, tag: Seq<char>) -> Result<(u8, nat), XmlError> {
    match simple_text_at(ts, p, tag) {
        Err(e) => Err(e),
        Ok((t, q)) => match byte_of(t) {
            Ok(v) => Ok((v, q)),
            Err(e) => Err(e),
        },
    }
}

/// A flag written as a self-closing `Enable` or `Disable` marker.
pub open spec fn flag_at(ts: Seq<XmlToken>, p: nat) -> Result<(bool, nat), XmlError> {
    match empty_tag_at(ts, p) {
        Err(e) => Err(e),
        Ok((n, q)) => if n@ == "Enable"@ {
            Ok((true, q))
        } else if n@ == "Disable"@ {
            Ok((false, q))
        } else {
            Err(XmlError::TagMismatch(n))
        },
    }
}

/// A `Pitch` element: `Step` text, optional `Accidental` text, `Octave` number.
pub open spec fn pitch_at(ts: Seq<XmlToken>, p: nat) -> Result<(Pitch, nat), XmlError> {
    match skip_until(ts, p, Stop::Open) {
        Err(e) => Err(e),
        Ok(p1) => match open_named_at(ts, p1, "Pitch"@) {
            Err(e) => Err(e),
            Ok(p2) => match simple_text_at(ts, p2, "Step"@) {
                Err(e) => Err(e),
                Ok((step, p3)) => match text_element_at(ts, p3, "Accidental"@) {
                    Err(e) => Err(e),
                    Ok((accidental, p4)) => match byte_element_at(ts, p4, "Octave"@) {
                        Err(e) => Err(e),
                        Ok((octave, p5)) => match skip_until(ts, p5, Stop::Close) {
                            Err(e) => Err(e),
                            Ok(p6) => match close_named_at(ts, p6, "Pitch"@) {
                                Err(e) => Err(e),
                                Ok(p7) => Ok((Pitch { step, accidental, octave }, p7)),
                            },
                        },
                    },
                },
            },
        },
    }
}

/// The payload of the property called `name`, read from `p` on.
pub open spec fn payload_at(name: String, ts: Seq<XmlToken>, p: nat) -> Result<(NoteProperty, nat), XmlError> {
    let n = name@;
    if n == "ConcertPitch"@ {
        match pitch_at(ts, p) {
            Ok((v, q)) => Ok((NoteProperty::ConcertPitch(v), q)),
            Err(e) => Err(e),
        }
    } else if n == "Fret"@ {
        match byte_element_at(ts, p, "Fret"@) {
            Ok((v, q)) => Ok((NoteProperty::Fret(v), q)),
            Err(e) => Err(e),
        }
    } else if n == "Harmonic"@ {
        match flag_at(ts, p) {
            Ok((v, q)) => Ok((NoteProperty::Harmonic(v), q)),
            Err(e) => Err(e),
        }
    } else if n == "HarmonicFret"@ {
        match simple_text_at(ts, p, "HFret"@) {
            Ok((v, q)) => Ok((NoteProperty::HarmonicFret(v), q)),
            Err(e) => Err(e),
        }
    } else if n == "HarmonicType"@ {
        match simple_text_at(ts, p, "HType"@) {
            Ok((v, q)) => Ok((NoteProperty::HarmonicType(v), q)),
            Err(e) => Err(e),
        }
    } else if n == "HopoOrigin"@ {
        match flag_at(ts, p) {
            Ok((v, q)) => Ok((NoteProperty::HopoOrigin(v), q)),
            Err(e) => Err(e),
        }
    } else if n == "HopoDestination"@ {
        match flag_at(ts, p) {
            Ok((v, q)) => Ok((NoteProperty::HopoDestination(v), q)),
            Err(e) => Err(e),
        }
    } else if n == "Tapped"@ {
        match flag_at(ts, p) {
            Ok((v, q)) => Ok((NoteProperty::Tapped(v), q)),
            Err(e) => Err(e),
        }
    } else if n == "LeftHandTapped"@ {
        match flag_at(ts, p) {
            Ok((v, q)) => Ok((NoteProperty::LeftHandTapped(v), q)),
            Err(e) => Err(e),
        }
    } else if n == "Midi"@ {
        match byte_element_at(ts, p, "Number"@) {
            Ok((v, q)) => Ok((NoteProperty::Midi(v), q)),
            Err(e) => Err(e),
        }
    } else if n == "Slide"@ {
        match byte_element_at(ts, p, "Flags"@) {
            Ok((v, q)) => Ok((NoteProperty::Slide(v), q)),
            Err(e) => Err(e),
        }
    } else if n == "Muted"@ {
        match flag_at(ts, p) {
            Ok((v, q)) => Ok((NoteProperty::Muted(v), q)),
            Err(e) => Err(e),
        }
    } else if n == "PalmMuted"@ {
        match flag_at(ts, p) {
            Ok((v, q)) => Ok((NoteProperty::PalmMuted(v), q)),
            Err(e) => Err(e),
        }
    } else if n == "String"@ {
        match byte_element_at(ts, p, "String"@) {
            Ok((v, q)) => Ok((NoteProperty::String(v), q)),
            Err(e) => Err(e),
        }
    } else if n == "TransposedPitch"@ {
        match pitch_at(ts, p) {
            Ok((v, q)) => Ok((NoteProperty::TransposedPitch(v), q)),
            Err(e) => Err(e),
        }
    } else {
        Err(XmlError::UnrecognizedVariant(name))
    }
}

/// One `Property` element from `p` on: its `name` attribute picks the payload.
pub open spec fn property_item_at(ts: Seq<XmlToken>, p: nat) -> Result<(NoteProperty, nat), XmlError> {
    match skip_until(ts, p, Stop::Open) {
        Err(e) => Err(e),
        Ok(p1) => match open_named_at(ts, p1, "Property"@) {
            Err(e) => Err(e),
            Ok(p2) => match attr_named_at(ts, p2, "name"@) {
                Err(e) => Err(e),
                Ok((name, p3)) => match skip_until(ts, p3, Stop::Open) {
                    Err(e) => Err(e),
                    Ok(p4) => match payload_at(name, ts, p4) {
                        Err(e) => Err(e),
                        Ok((prop, p5)) => match skip_until(ts, p5, Stop::Close) {
                            Err(e) => Err(e),
                            Ok(p6) => match close_named_at(ts, p6, "Property"@) {
                                Err(e) => Err(e),
                                Ok(p7) => Ok((prop, p7)),
                            },
                        },
                    },
                },
            },
        },
    }
}

pub proof fn lemma_payload_advances(name: String, ts: Seq<XmlToken>, p: nat)
    ensures
        payload_at(name, ts, p) matches Ok((_, q)) ==> p <= q <= ts.len(),
{
}

pub proof fn lemma_property_item_advances(ts: Seq<XmlToken>, p: nat)
    ensures
        property_item_at(ts, p) matches Ok((_, q)) ==> p < q <= ts.len(),
{
    if let Ok(p1) = skip_until(ts, p, Stop::Open) {
        if let Ok(p2) = open_named_at(ts, p1, "Property"@) {
            if let Ok((name, p3)) = attr_named_at(ts, p2, "name"@) {
                if let Ok(p4) = skip_until(ts, p3, Stop::Open) {
                    lemma_payload_advances(name, ts, p4);
                }
            }
        }
    }
}

/// The properties of a block from `p` on, after those in `acc`, up to the
/// closing `Properties` tag, which is left unread.
pub open spec fn properties_from(ts: Seq<XmlToken>, p: nat, acc: Seq<NoteProperty>) -> Result<(Seq<NoteProperty>, nat), XmlError>
    decreases ts.len() - p,
{
    match until_end_at(ts, p, "Properties"@) {
        Err(e) => Err(e),
        Ok((false, q)) => Ok((acc, q)),
        Ok((true, q)) => match property_item_at(ts, q) {
            Err(e) => Err(e),
            Ok((prop, r)) => {
                proof {
                    lemma_until_end_bounds(ts, p, "Properties"@);
                    lemma_property_item_advances(ts, q);
                }
                properties_from(ts, r, acc.push(prop))
            },
        },
    }
}

pub proof fn lemma_until_end_bounds(ts: Seq<XmlToken>, p: nat, name: Seq<char>)
    ensures
        until_end_at(ts, p, name) matches Ok((_, q)) ==> p <= q < ts.len(),
    decreases ts.len() - p,
{
    if p < ts.len() {
        match ts[p as int] {
            XmlToken::Invalid | XmlToken::Open(_) | XmlToken::Close(_) => {},
            _ => lemma_until_end_bounds(ts, p + 1, name),
        }
    }
}

fn read_byte_text(t: String) -> (r: Result<u8, XmlError>)
    ensures
        r == byte_of(t),
{
    let cs = chars_of(t.as_str());
    match parse_decimal(&cs, 0, 255) {
        Some(v) => Ok(v as u8),
        None => Err(XmlError::InvalidNumber(t)),
    }
}

fn read_byte_element(reader: &mut ReaderExt, tag: &str) -> (r: Result<u8, XmlError>)
    ensures
        final(reader).toks() == old(reader).toks(),
        match byte_element_at(old(reader).toks(), old(reader).at(), tag@) {
            Ok((v, q)) => r == Ok::<u8, XmlError>(v) && final(reader).at() == q,
            Err(e) => r == Err::<u8, XmlError>(e),
        },
{
    let t = reader.simple_tag_text(tag)?;
    read_byte_text(t)
}

fn read_flag(reader: &mut ReaderExt) -> (r: Result<bool, XmlError>)
    ensures
        final(reader).toks() == old(reader).toks(),
        match flag_at(old(reader).toks(), old(reader).at()) {
            Ok((v, q)) => r == Ok::<bool, XmlError>(v) && final(reader).at() == q,
            Err(e) => r == Err::<bool, XmlError>(e),
        },
{
    let n = reader.empty_tag()?;
    if same_text(n.as_str(), "Enable") {
        Ok(true)
    } else if same_text(n.as_str(), "Disable") {
        Ok(false)
    } else {
        Err(XmlError::TagMismatch(n))
    }
}

impl Pitch {
    /// Reads the next `Pitch` element.
    pub fn read(reader: &mut ReaderExt) -> (r: Result<Pitch, XmlError>)
        ensures
            final(reader).toks() == old(reader).toks(),
            match pitch_at(old(reader).toks(), old(reader).at()) {
                Ok((v, q)) => r == Ok::<Pitch, XmlError>(v) && final(reader).at() == q,
                Err(e) => r == Err::<Pitch, XmlError>(e),
            },
    {
        reader.skip_to_open()?;
        reader.open_tag_named("Pitch")?;
        let step = reader.simple_tag_text("Step")?;
        let accidental = reader.text_element("Accidental")?;
        let octave = read_byte_element(reader, "Octave")?;
        reader.skip_to_close()?;
        reader.close_tag_named("Pitch")?;
        Ok(Pitch { step, accidental, octave })
    }
}

impl NoteProperty {
    /// Reads the payload of the property called `typ`; a name outside the
    /// closed set fails with `UnrecognizedVariant`.
    pub fn parse_property(typ: String, reader: &mut ReaderExt) -> (r: Result<NoteProperty, XmlError>)
        ensures
            final(reader).toks() == old(reader).toks(),
            match payload_at(typ, old(reader).toks(), old(reader).at()) {
                Ok((v, q)) => r == Ok::<NoteProperty, XmlError>(v) && final(reader).at() == q,
                Err(e) => r == Err::<NoteProperty, XmlError>(e),
            },
    {
        let n = typ.as_str();
        if same_text(n, "ConcertPitch") {
            Ok(NoteProperty::ConcertPitch(Pitch::read(reader)?))
        } else if same_text(n, "Fret") {
            Ok(NoteProperty::Fret(read_byte_element(reader, "Fret")?))
        } else if same_text(n, "Harmonic") {
            Ok(NoteProperty::Harmonic(read_flag(reader)?))
        } else if same_text(n, "HarmonicFret") {
            Ok(NoteProperty::HarmonicFret(reader.simple_tag_text("HFret")?))
        } else if same_text(n, "HarmonicType") {
            Ok(NoteProperty::HarmonicType(reader.simple_tag_text("HType")?))
        } else if same_text(n, "HopoOrigin") {
            Ok(NoteProperty::HopoOrigin(read_flag(reader)?))
        } else if same_text(n, "HopoDestination") {
            Ok(NoteProperty::HopoDestination(read_flag(reader)?))
        } else if same_text(n, "Tapped") {
            Ok(NoteProperty::Tapped(read_flag(reader)?))
        } else if same_text(n, "LeftHandTapped") {
            Ok(NoteProperty::LeftHandTapped(read_flag(reader)?))
        } else if same_text(n, "Midi") {
            Ok(NoteProperty::Midi(read_byte_element(reader, "Number")?))
        } else if same_text(n, "Slide") {
            Ok(NoteProperty::Slide(read_byte_element(reader, "Flags")?))
        } else if same_text(n, "Muted") {
            Ok(NoteProperty::Muted(read_flag(reader)?))
        } else if same_text(n, "PalmMuted") {
            Ok(NoteProperty::PalmMuted(read_flag(reader)?))
        } else if same_text(n, "String") {
            Ok(NoteProperty::String(read_byte_element(reader, "String")?))
        } else if same_text(n, "TransposedPitch") {
            Ok(NoteProperty::TransposedPitch(Pitch::read(reader)?))
        } else {
            Err(XmlError::UnrecognizedVariant(typ))
        }
    }
}

fn read_property_item(reader: &mut ReaderExt) -> (r: Result<NoteProperty, XmlError>)
    ensures
        final(reader).toks() == old(reader).toks(),
        match property_item_at(old(reader).toks(), old(reader).at()) {
            Ok((v, q)) => r == Ok::<NoteProperty, XmlError>(v) && final(reader).at() == q,
            Err(e) => r == Err::<NoteProperty, XmlError>(e),
        },
{
    reader.skip_to_open()?;
    reader.open_tag_named("Property")?;
    let name = reader.attr_named("name")?;
    reader.skip_to_open()?;
    let prop = NoteProperty::parse_property(name, reader)?;
    reader.skip_to_close()?;
    reader.close_tag_named("Property")?;
    Ok(prop)
}

/// Reads the `Property` elements of a block, in order, up to the closing
/// `Properties` tag, which is left unread.
pub fn read_properties(reader: &mut ReaderExt) -> (r: Result<Vec<NoteProperty>, XmlError>)
    ensures
        final(reader).toks() == old(reader).toks(),
        match properties_from(old(reader).toks(), old(reader).at(), Seq::empty()) {
            Ok((v, q)) => r matches Ok(w) && w@ == v && final(reader).at() == q,
            Err(e) => r == Err::<Vec<NoteProperty>, XmlError>(e),
        },
{
    let mut properties: Vec<NoteProperty> = Vec::new();
    let ghost start = reader.at();
    loop
        invariant
            reader.toks() == old(reader).toks(),
            properties_from(reader.toks(), reader.at(), properties@)
                == properties_from(reader.toks(), start, Seq::empty()),
            start == old(reader).at(),
        decreases reader.toks().len() - reader.at(),
    {
        let ghost before = reader.at();
        let more = reader.until_end_tag("Properties")?;
        if !more {
            return Ok(properties);
        }
        proof {
            lemma_until_end_bounds(reader.toks(), before, "Properties"@);
            lemma_property_item_advances(reader.toks(), reader.at());
        }
        let prop = read_property_item(reader)?;
        properties.push(prop);
    }
}

/// Whether `t` starts an element named `name`.
pub open spec fn is_open(t: XmlToken, name: Seq<char>) -> bool {
    t matches XmlToken::Open(n) && n@ == name
}

/// Whether `t` closes an element named `name`.
pub open spec fn is_close(t: XmlToken, name: Seq<char>) -> bool {
    t matches XmlToken::Close(n) && n@ == name
}

/// The discriminator that names a property's variant.
pub open spec fn discriminator(p: NoteProperty) -> Seq<char> {
    match p {
        NoteProperty::ConcertPitch(_) => "ConcertPitch"@,
        NoteProperty::Fret(_) => "Fret"@,
        NoteProperty::Harmonic(_) => "Harmonic"@,
        NoteProperty::HarmonicFret(_) => "HarmonicFret"@,
        NoteProperty::HarmonicType(_) => "HarmonicType"@,
        NoteProperty::HopoOrigin(_) => "HopoOrigin"@,
        NoteProperty::HopoDestination(_) => "HopoDestination"@,
        NoteProperty::Tapped(_) => "Tapped"@,
        NoteProperty::LeftHandTapped(_) => "LeftHandTapped"@,
        NoteProperty::Midi(_) => "Midi"@,
        NoteProperty::Slide(_) => "Slide"@,
        NoteProperty::Muted(_) => "Muted"@,
        NoteProperty::PalmMuted(_) => "PalmMuted"@,
        NoteProperty::String(_) => "String"@,
        NoteProperty::TransposedPitch(_) => "TransposedPitch"@,
    }
}

/// `<tag>text</tag>`, whose text writes the byte `v`.
pub open spec fn byte_tokens(s: Seq<XmlToken>, tag: Seq<char>, v: u8) -> bool {
    &&& s.len() == 4
    &&& is_open(s[0], tag)
    &&& s[1] == XmlToken::OpenEnd
    &&& s[2] matches XmlToken::Text(t) && decimal_in(t@, 0, 255) == Some(v as int)
    &&& is_close(s[3], tag)
}

/// `<tag>text</tag>` holding exactly `text`.
pub open spec fn text_tokens(s: Seq<XmlToken>, tag: Seq<char>, text: String) -> bool {
    &&& s.len() == 4
    &&& is_open(s[0], tag)
    &&& s[1] == XmlToken::OpenEnd
    &&& s[2] == XmlToken::Text(text)
    &&& is_close(s[3], tag)
}

/// `<Enable/>` for `true`, `<Disable/>` for `false`.
pub open spec fn flag_tokens(s: Seq<XmlToken>, b: bool) -> bool {
    &&& s.len() == 2
    &&& is_open(s[0], if b { "Enable"@ } else { "Disable"@ })
    &&& s[1] == XmlToken::EmptyEnd
}

/// The accidental of a pitch: `<Accidental/>` when absent.
pub open spec fn accidental_tokens(s: Seq<XmlToken>, a: Option<String>) -> bool {
    match a {
        None => s.len() == 2 && is_open(s[0], "Accidental"@) && s[1] == XmlToken::EmptyEnd,
        Some(t) => text_tokens(s, "Accidental"@, t),
    }
}

/// A `Pitch` element with its step, accidental and octave, with the filler
/// `g[0]` to `g[3]` before the step, the accidental, the octave and the
/// closing tag.
pub open spec fn pitch_tokens(s: Seq<XmlToken>, pt: Pitch, g: Seq<Seq<XmlToken>>) -> bool {
    let k = if pt.accidental is None { 2int } else { 4int };
    let a: int = 2 + g[0].len() as int;
    let b: int = a + 4 + g[1].len() as int;
    let c: int = b + k + g[2].len() as int;
    let e: int = c + 4 + g[3].len() as int;
    &&& g.len() == 4
    &&& filler(g[0]) && filler(g[1]) && filler(g[2]) && filler(g[3])
    &&& s.len() == e + 1
    &&& is_open(s[0], "Pitch"@)
    &&& s[1] == XmlToken::OpenEnd
    &&& s.subrange(2, a) == g[0]
    &&& text_tokens(s.subrange(a, a + 4), "Step"@, pt.step)
    &&& s.subrange(a + 4, b) == g[1]
    &&& accidental_tokens(s.subrange(b, b + k), pt.accidental)
    &&& s.subrange(b + k, c) == g[2]
    &&& byte_tokens(s.subrange(c, c + 4), "Octave"@, pt.octave)
    &&& s.subrange(c + 4, e) == g[3]
    &&& is_close(s[e], "Pitch"@)
}

/// The payload of a property: compact, but for a pitch, which may hold
/// the filler `g` between its parts.
pub open spec fn payload_tokens(s: Seq<XmlToken>, p: NoteProperty, g: Seq<Seq<XmlToken>>) -> bool {
    match p {
        NoteProperty::ConcertPitch(pt) => pitch_tokens(s, pt, g),
        NoteProperty::TransposedPitch(pt) => pitch_tokens(s, pt, g),
        NoteProperty::Fret(v) => byte_tokens(s, "Fret"@, v),
        NoteProperty::Midi(v) => byte_tokens(s, "Number"@, v),
        NoteProperty::Slide(v) => byte_tokens(s, "Flags"@, v),
        NoteProperty::String(v) => byte_tokens(s, "String"@, v),
        NoteProperty::HarmonicFret(t) => text_tokens(s, "HFret"@, t),
        NoteProperty::HarmonicType(t) => text_tokens(s, "HType"@, t),
        NoteProperty::Harmonic(b) => flag_tokens(s, b),
        NoteProperty::HopoOrigin(b) => flag_tokens(s, b),
        NoteProperty::HopoDestination(b) => flag_tokens(s, b),
        NoteProperty::Tapped(b) => flag_tokens(s, b),
        NoteProperty::LeftHandTapped(b) => flag_tokens(s, b),
        NoteProperty::Muted(b) => flag_tokens(s, b),
        NoteProperty::PalmMuted(b) => flag_tokens(s, b),
    }
}

/// Tokens that a reader passes over between elements: character data
/// (such as indentation) and declarations, comments or processing
/// instructions.
pub open spec fn filler(s: Seq<XmlToken>) -> bool {
    forall|i: int| 0 <= i < s.len() ==> (#[trigger] s[i] is Text || s[i] is Other)
}

/// One `Property` element, laid out as: filler before it, its start tag
/// with the `name` attribute, filler, the payload, filler, its closing tag.
pub ghost struct PropertyLayout {
    pub lead: Seq<XmlToken>,
    pub open: XmlToken,
    pub attr: XmlToken,
    pub gap: Seq<XmlToken>,
    pub payload: Seq<XmlToken>,
    pub tail: Seq<XmlToken>,
    pub close: XmlToken,
    /// The filler inside a pitch payload.
    pub pitch_gaps: Seq<Seq<XmlToken>>,
}

/// The tokens of a `Property` element after its leading filler.
pub open spec fn item_tokens(l: PropertyLayout) -> Seq<XmlToken> {
    seq![l.open, l.attr, XmlToken::OpenEnd] + l.gap + l.payload + l.tail + seq![l.close]
}

/// The tokens of a `Property` element with its leading filler.
pub open spec fn layout_tokens(l: PropertyLayout) -> Seq<XmlToken> {
    l.lead + item_tokens(l)
}

/// Whether `l` is a well-formed `Property` element holding `p`.
pub open spec fn property_layout(l: PropertyLayout, p: NoteProperty) -> bool {
    &&& filler(l.lead)
    &&& filler(l.gap)
    &&& filler(l.tail)
    &&& is_open(l.open, "Property"@)
    &&& l.attr matches XmlToken::Attribute(k, v) && k@ == "name"@ && v@ == discriminator(p)
    &&& payload_tokens(l.payload, p, l.pitch_gaps)
    &&& is_close(l.close, "Property"@)
}

/// Whether `ts` holds from `p` on the elements `ls`, one for each of
/// `props`, then the filler `end` and `</Properties>`.
pub open spec fn block_tokens_at(ts: Seq<XmlToken>, p: nat, ls: Seq<PropertyLayout>, props: Seq<NoteProperty>, end: Seq<XmlToken>) -> bool
    decreases ls.len(),
{
    &&& ls.len() == props.len()
    &&& if ls.len() == 0 {
        &&& filler(end)
        &&& p + end.len() < ts.len()
        &&& ts.subrange(p as int, (p + end.len()) as int) == end
        &&& is_close(ts[(p + end.len()) as int], "Properties"@)
    } else {
        let s = layout_tokens(ls[0]);
        &&& p + s.len() <= ts.len()
        &&& ts.subrange(p as int, (p + s.len()) as int) == s
        &&& property_layout(ls[0], props[0])
        &&& block_tokens_at(ts, p + s.len(), ls.drop_first(), props.drop_first(), end)
    }
}

proof fn lemma_skip_filler(ts: Seq<XmlToken>, q: nat, f: Seq<XmlToken>, s: Stop)
    requires
        q + f.len() <= ts.len(),
        forall|i: int| 0 <= i < f.len() ==> ts[q + i] == #[trigger] f[i],
        filler(f),
        s is Open || s is Close,
    ensures
        skip_until(ts, q, s) == skip_until(ts, q + f.len(), s),
        until_end_at(ts, q, "Properties"@) == until_end_at(ts, q + f.len(), "Properties"@),
    decreases f.len(),
{
    if f.len() > 0 {
        assert(ts[q as int + 0] == f[0]);
        let r = f.drop_first();
        assert forall|i: int| 0 <= i < r.len() implies ts[(q + 1) + i] == #[trigger] r[i] by {
            assert(ts[q + (1 + i)] == f[1 + i]);
        }
        lemma_skip_filler(ts, q + 1, r, s);
    }
}

proof fn lemma_at(ts: Seq<XmlToken>, q: int, s: Seq<XmlToken>)
    requires
        0 <= q,
        q + s.len() <= ts.len(),
        ts.subrange(q, q + s.len()) == s,
    ensures
        forall|i: int| 0 <= i < s.len() ==> ts[q + i] == #[trigger] s[i],
{
    assert forall|i: int| 0 <= i < s.len() implies ts[q + i] == #[trigger] s[i] by {
        assert(ts.subrange(q, q + s.len())[i] == ts[q + i]);
    }
}

proof fn lemma_byte_element(ts: Seq<XmlToken>, q: nat, s: Seq<XmlToken>, tag: Seq<char>, v: u8)
    requires
        q + s.len() <= ts.len(),
        forall|i: int| 0 <= i < s.len() ==> ts[q + i] == #[trigger] s[i],
        byte_tokens(s, tag, v),
    ensures
        byte_element_at(ts, q, tag) == Ok::<(u8, nat), XmlError>((v, q + 4)),
        simple_text_at(ts, q, tag) == Ok::<(String, nat), XmlError>((s[2]->Text_0, q + 4)),
{
    assert(ts[q as int + 0] == s[0]);
    assert(ts[q as int + 1] == s[1]);
    assert(ts[q as int + 2] == s[2]);
    assert(ts[q as int + 3] == s[3]);
    reveal_with_fuel(skip_until, 3);
}

proof fn lemma_text_element(ts: Seq<XmlToken>, q: nat, s: Seq<XmlToken>, tag: Seq<char>, t: String)
    requires
        q + s.len() <= ts.len(),
        forall|i: int| 0 <= i < s.len() ==> ts[q + i] == #[trigger] s[i],
        text_tokens(s, tag, t),
    ensures
        simple_text_at(ts, q, tag) == Ok::<(String, nat), XmlError>((t, q + 4)),
        text_element_at(ts, q, tag) == Ok::<(Option<String>, nat), XmlError>((Some(t), q + 4)),
{
    assert(ts[q as int + 0] == s[0]);
    assert(ts[q as int + 1] == s[1]);
    assert(ts[q as int + 2] == s[2]);
    assert(ts[q as int + 3] == s[3]);
    reveal_with_fuel(skip_until, 3);
    reveal_with_fuel(text_body_at, 4);
}

proof fn lemma_flag(ts: Seq<XmlToken>, q: nat, s: Seq<XmlToken>, b: bool)
    requires
        q + s.len() <= ts.len(),
        forall|i: int| 0 <= i < s.len() ==> ts[q + i] == #[trigger] s[i],
        flag_tokens(s, b),
    ensures
        flag_at(ts, q) == Ok::<(bool, nat), XmlError>((b, q + 2)),
{
    assert(ts[q as int + 0] == s[0]);
    assert(ts[q as int + 1] == s[1]);
    reveal_strlit("Enable");
    reveal_strlit("Disable");
    assert("Enable"@.len() == 6 && "Disable"@.len() == 7);
    assert(skip_until(ts, q, Stop::Open) == Ok::<nat, XmlError>(q));
    assert(skip_until(ts, q + 1, Stop::EmptyEnd) == Ok::<nat, XmlError>(q + 1));
    assert(empty_tag_at(ts, q) == Ok::<(String, nat), XmlError>((s[0]->Open_0, q + 2)));
}

proof fn lemma_sub(ts: Seq<XmlToken>, q: int, s: Seq<XmlToken>, x: int, y: int)
    requires
        0 <= x <= y <= s.len(),
        forall|i: int| 0 <= i < s.len() ==> ts[q + i] == #[trigger] s[i],
    ensures
        forall|i: int| 0 <= i < y - x ==> ts[(q + x) + i] == #[trigger] s.subrange(x, y)[i],
{
    assert forall|i: int| 0 <= i < y - x implies ts[(q + x) + i] == #[trigger] s.subrange(x, y)[i] by {
        assert(ts[q + (x + i)] == s[x + i]);
    }
}

proof fn lemma_pitch(ts: Seq<XmlToken>, q: nat, s: Seq<XmlToken>, pt: Pitch, g: Seq<Seq<XmlToken>>)
    requires
        q + s.len() <= ts.len(),
        forall|i: int| 0 <= i < s.len() ==> ts[q + i] == #[trigger] s[i],
        pitch_tokens(s, pt, g),
    ensures
        pitch_at(ts, q) == Ok::<(Pitch, nat), XmlError>((pt, q + s.len())),
{
    let k: int = if pt.accidental is None { 2 } else { 4 };
    let a: int = 2 + g[0].len() as int;
    let b: int = a + 4 + g[1].len() as int;
    let c: int = b + k + g[2].len() as int;
    let e: int = c + 4 + g[3].len() as int;
    assert(ts[q as int + 0] == s[0]);
    assert(ts[q as int + 1] == s[1]);
    lemma_sub(ts, q as int, s, 2, a);
    lemma_skip_filler(ts, q + 2, g[0], Stop::Open);
    lemma_sub(ts, q as int, s, a, a + 4);
    let st = s.subrange(a, a + 4);
    lemma_text_element(ts, (q + a) as nat, st, "Step"@, pt.step);
    assert(ts[q + a] == st[0]);
    reveal_with_fuel(skip_until, 2);
    assert(skip_until(ts, q + 1, Stop::Open) == skip_until(ts, (q + a) as nat, Stop::Open));
    lemma_sub(ts, q as int, s, a + 4, b);
    lemma_skip_filler(ts, (q + a + 4) as nat, g[1], Stop::Open);
    lemma_sub(ts, q as int, s, b, b + k);
    let ac = s.subrange(b, b + k);
    assert(ts[q + b] == ac[0]);
    match pt.accidental {
        None => {
            assert(ts[q + b + 1] == ac[1]);
            assert(text_element_at(ts, (q + b) as nat, "Accidental"@) == Ok::<(Option<String>, nat), XmlError>((None, (q + b + 2) as nat)));
        },
        Some(x) => {
            lemma_text_element(ts, (q + b) as nat, ac, "Accidental"@, x);
        },
    }
    assert(text_element_at(ts, (q + a + 4) as nat, "Accidental"@) == text_element_at(ts, (q + b) as nat, "Accidental"@));
    lemma_sub(ts, q as int, s, b + k, c);
    lemma_skip_filler(ts, (q + b + k) as nat, g[2], Stop::Open);
    lemma_sub(ts, q as int, s, c, c + 4);
    let oc = s.subrange(c, c + 4);
    lemma_byte_element(ts, (q + c) as nat, oc, "Octave"@, pt.octave);
    assert(ts[q + c] == oc[0]);
    assert(byte_element_at(ts, (q + b + k) as nat, "Octave"@) == byte_element_at(ts, (q + c) as nat, "Octave"@));
    lemma_sub(ts, q as int, s, c + 4, e);
    lemma_skip_filler(ts, (q + c + 4) as nat, g[3], Stop::Close);
    assert(ts[q + e] == s[e]);
    assert(skip_until(ts, (q + c + 4) as nat, Stop::Close) == Ok::<nat, XmlError>((q + e) as nat));
}


/// The discriminators are pairwise distinct.
proof fn lemma_discriminators_distinct(p: NoteProperty, n: Seq<char>)
    requires
        n == discriminator(p),
    ensures
        !(p is ConcertPitch) ==> n != "ConcertPitch"@,
        !(p is Fret) ==> n != "Fret"@,
        !(p is Harmonic) ==> n != "Harmonic"@,
        !(p is HarmonicFret) ==> n != "HarmonicFret"@,
        !(p is HarmonicType) ==> n != "HarmonicType"@,
        !(p is HopoOrigin) ==> n != "HopoOrigin"@,
        !(p is HopoDestination) ==> n != "HopoDestination"@,
        !(p is Tapped) ==> n != "Tapped"@,
        !(p is LeftHandTapped) ==> n != "LeftHandTapped"@,
        !(p is Midi) ==> n != "Midi"@,
        !(p is Slide) ==> n != "Slide"@,
        !(p is Muted) ==> n != "Muted"@,
        !(p is PalmMuted) ==> n != "PalmMuted"@,
        !(p is String) ==> n != "String"@,
        !(p is TransposedPitch) ==> n != "TransposedPitch"@,
{
    reveal_strlit("ConcertPitch");
    reveal_strlit("Fret");
    reveal_strlit("Harmonic");
    reveal_strlit("HarmonicFret");
    reveal_strlit("HarmonicType");
    reveal_strlit("HopoOrigin");
    reveal_strlit("HopoDestination");
    reveal_strlit("Tapped");
    reveal_strlit("LeftHandTapped");
    reveal_strlit("Midi");
    reveal_strlit("Slide");
    reveal_strlit("Muted");
    reveal_strlit("PalmMuted");
    reveal_strlit("String");
    reveal_strlit("TransposedPitch");
    match p {
        NoteProperty::ConcertPitch(_) => {
            assert(n.len() == 12 && n[0] == 'C' && n[1] == 'o' && n[2] == 'n' && n[3] == 'c' && n[4] == 'e' && n[5] == 'r' && n[6] == 't' && n[7] == 'P' && n[8] == 'i' && n[9] == 't' && n[10] == 'c' && n[11] == 'h');
        },
        NoteProperty::Fret(_) => {
            assert(n.len() == 4 && n[0] == 'F' && n[1] == 'r' && n[2] == 'e' && n[3] == 't');
        },
        NoteProperty::Harmonic(_) => {
            assert(n.len() == 8 && n[0] == 'H' && n[1] == 'a' && n[2] == 'r' && n[3] == 'm' && n[4] == 'o' && n[5] == 'n' && n[6] == 'i' && n[7] == 'c');
        },
        NoteProperty::HarmonicFret(_) => {
            assert(n.len() == 12 && n[0] == 'H' && n[1] == 'a' && n[2] == 'r' && n[3] == 'm' && n[4] == 'o' && n[5] == 'n' && n[6] == 'i' && n[7] == 'c' && n[8] == 'F' && n[9] == 'r' && n[10] == 'e' && n[11] == 't');
        },
        NoteProperty::HarmonicType(_) => {
            assert(n.len() == 12 && n[0] == 'H' && n[1] == 'a' && n[2] == 'r' && n[3] == 'm' && n[4] == 'o' && n[5] == 'n' && n[6] == 'i' && n[7] == 'c' && n[8] == 'T' && n[9] == 'y' && n[10] == 'p' && n[11] == 'e');
        },
        NoteProperty::HopoOrigin(_) => {
            assert(n.len() == 10 && n[0] == 'H' && n[1] == 'o' && n[2] == 'p' && n[3] == 'o' && n[4] == 'O' && n[5] == 'r' && n[6] == 'i' && n[7] == 'g' && n[8] == 'i' && n[9] == 'n');
        },
        NoteProperty::HopoDestination(_) => {
            assert(n.len() == 15 && n[0] == 'H' && n[1] == 'o' && n[2] == 'p' && n[3] == 'o' && n[4] == 'D' && n[5] == 'e' && n[6] == 's' && n[7] == 't' && n[8] == 'i' && n[9] == 'n' && n[10] == 'a' && n[11] == 't' && n[12] == 'i' && n[13] == 'o' && n[14] == 'n');
        },
        NoteProperty::Tapped(_) => {
            assert(n.len() == 6 && n[0] == 'T' && n[1] == 'a' && n[2] == 'p' && n[3] == 'p' && n[4] == 'e' && n[5] == 'd');
        },
        NoteProperty::LeftHandTapped(_) => {
            assert(n.len() == 14 && n[0] == 'L' && n[1] == 'e' && n[2] == 'f' && n[3] == 't' && n[4] == 'H' && n[5] == 'a' && n[6] == 'n' && n[7] == 'd' && n[8] == 'T' && n[9] == 'a' && n[10] == 'p' && n[11] == 'p' && n[12] == 'e' && n[13] == 'd');
        },
        NoteProperty::Midi(_) => {
            assert(n.len() == 4 && n[0] == 'M' && n[1] == 'i' && n[2] == 'd' && n[3] == 'i');
        },
        NoteProperty::Slide(_) => {
            assert(n.len() == 5 && n[0] == 'S' && n[1] == 'l' && n[2] == 'i' && n[3] == 'd' && n[4] == 'e');
        },
        NoteProperty::Muted(_) => {
            assert(n.len() == 5 && n[0] == 'M' && n[1] == 'u' && n[2] == 't' && n[3] == 'e' && n[4] == 'd');
        },
        NoteProperty::PalmMuted(_) => {
            assert(n.len() == 9 && n[0] == 'P' && n[1] == 'a' && n[2] == 'l' && n[3] == 'm' && n[4] == 'M' && n[5] == 'u' && n[6] == 't' && n[7] == 'e' && n[8] == 'd');
        },
        NoteProperty::String(_) => {
            assert(n.len() == 6 && n[0] == 'S' && n[1] == 't' && n[2] == 'r' && n[3] == 'i' && n[4] == 'n' && n[5] == 'g');
        },
        NoteProperty::TransposedPitch(_) => {
            assert(n.len() == 15 && n[0] == 'T' && n[1] == 'r' && n[2] == 'a' && n[3] == 'n' && n[4] == 's' && n[5] == 'p' && n[6] == 'o' && n[7] == 's' && n[8] == 'e' && n[9] == 'd' && n[10] == 'P' && n[11] == 'i' && n[12] == 't' && n[13] == 'c' && n[14] == 'h');
        },
    }
}

proof fn lemma_payload(ts: Seq<XmlToken>, q: nat, s: Seq<XmlToken>, name: String, p: NoteProperty, g: Seq<Seq<XmlToken>>)
    requires
        q + s.len() <= ts.len(),
        forall|i: int| 0 <= i < s.len() ==> ts[q + i] == #[trigger] s[i],
        payload_tokens(s, p, g),
        name@ == discriminator(p),
    ensures
        payload_at(name, ts, q) == Ok::<(NoteProperty, nat), XmlError>((p, q + s.len())),
        s.len() > 0 && s[0] is Open,
{
    lemma_discriminators_distinct(p, name@);
    reveal_strlit("ConcertPitch");
    reveal_strlit("Fret");
    reveal_strlit("Harmonic");
    reveal_strlit("HarmonicFret");
    reveal_strlit("HarmonicType");
    reveal_strlit("HopoOrigin");
    reveal_strlit("HopoDestination");
    reveal_strlit("Tapped");
    reveal_strlit("LeftHandTapped");
    reveal_strlit("Midi");
    reveal_strlit("Slide");
    reveal_strlit("Muted");
    reveal_strlit("PalmMuted");
    reveal_strlit("String");
    reveal_strlit("TransposedPitch");
    reveal_strlit("Enable");
    reveal_strlit("Disable");
    reveal_strlit("Pitch");
    reveal_strlit("Step");
    reveal_strlit("Accidental");
    reveal_strlit("Octave");
    reveal_strlit("Number");
    reveal_strlit("Flags");
    reveal_strlit("HFret");
    reveal_strlit("HType");
    reveal_strlit("Property");
    reveal_strlit("Properties");
    reveal_strlit("name");
    match p {
        NoteProperty::ConcertPitch(pt) => lemma_pitch(ts, q, s, pt, g),
        NoteProperty::TransposedPitch(pt) => lemma_pitch(ts, q, s, pt, g),
        NoteProperty::Fret(v) => lemma_byte_element(ts, q, s, "Fret"@, v),
        NoteProperty::Midi(v) => lemma_byte_element(ts, q, s, "Number"@, v),
        NoteProperty::Slide(v) => lemma_byte_element(ts, q, s, "Flags"@, v),
        NoteProperty::String(v) => lemma_byte_element(ts, q, s, "String"@, v),
        NoteProperty::HarmonicFret(t) => lemma_text_element(ts, q, s, "HFret"@, t),
        NoteProperty::HarmonicType(t) => lemma_text_element(ts, q, s, "HType"@, t),
        NoteProperty::Harmonic(b) => lemma_flag(ts, q, s, b),
        NoteProperty::HopoOrigin(b) => lemma_flag(ts, q, s, b),
        NoteProperty::HopoDestination(b) => lemma_flag(ts, q, s, b),
        NoteProperty::Tapped(b) => lemma_flag(ts, q, s, b),
        NoteProperty::LeftHandTapped(b) => lemma_flag(ts, q, s, b),
        NoteProperty::Muted(b) => lemma_flag(ts, q, s, b),
        NoteProperty::PalmMuted(b) => lemma_flag(ts, q, s, b),
    }
}

#[verifier::rlimit(80)]
proof fn lemma_property_item(ts: Seq<XmlToken>, q: nat, l: PropertyLayout, p: NoteProperty)
    requires
        q + item_tokens(l).len() <= ts.len(),
        ts.subrange(q as int, (q + item_tokens(l).len()) as int) == item_tokens(l),
        property_layout(l, p),
    ensures
        property_item_at(ts, q) == Ok::<(NoteProperty, nat), XmlError>((p, q + item_tokens(l).len())),
{
    let s = item_tokens(l);
    let g = l.gap.len() as int;
    let pl = l.payload.len() as int;
    let t = l.tail.len() as int;
    lemma_at(ts, q as int, s);
    reveal_strlit("Property");
    reveal_strlit("name");
    assert(ts[q as int + 0] == l.open) by {
        assert(s[0] == l.open);
    }
    assert(ts[q as int + 1] == l.attr) by {
        assert(s[1] == l.attr);
    }
    assert(ts[q as int + 2] == XmlToken::OpenEnd) by {
        assert(s[2] == XmlToken::OpenEnd);
    }
    assert forall|i: int| 0 <= i < g implies ts[(q + 3) + i] == #[trigger] l.gap[i] by {
        assert(s[3 + i] == l.gap[i]);
        assert(ts[q + (3 + i)] == s[3 + i]);
    }
    assert forall|i: int| 0 <= i < pl implies ts[(q + 3 + g) + i] == #[trigger] l.payload[i] by {
        assert(s[3 + g + i] == l.payload[i]);
        assert(ts[q + (3 + g + i)] == s[3 + g + i]);
    }
    assert forall|i: int| 0 <= i < t implies ts[(q + 3 + g + pl) + i] == #[trigger] l.tail[i] by {
        assert(s[3 + g + pl + i] == l.tail[i]);
        assert(ts[q + (3 + g + pl + i)] == s[3 + g + pl + i]);
    }
    assert(ts[q + (3 + g + pl + t)] == l.close) by {
        assert(s[3 + g + pl + t] == l.close);
    }
    let name = l.attr->Attribute_1;
    lemma_payload(ts, (q + 3 + g) as nat, l.payload, name, p, l.pitch_gaps);
    assert(ts[q + 3 + g + 0] == l.payload[0]) by {
        assert(l.payload.len() > 0);
    }
    lemma_skip_filler(ts, q + 3, l.gap, Stop::Open);
    lemma_skip_filler(ts, (q + 3 + g + pl) as nat, l.tail, Stop::Close);
    assert(skip_until(ts, q + 2, Stop::Open) == skip_until(ts, q + 3, Stop::Open));
    assert(skip_until(ts, (q + 3 + g) as nat, Stop::Open) == Ok::<nat, XmlError>((q + 3 + g) as nat));
    assert(skip_until(ts, (q + 3 + g + pl + t) as nat, Stop::Close) == Ok::<nat, XmlError>((q + 3 + g + pl + t) as nat));
}

#[verifier::rlimit(40)]
proof fn lemma_block_reads(ts: Seq<XmlToken>, p: nat, ls: Seq<PropertyLayout>, props: Seq<NoteProperty>, end: Seq<XmlToken>, acc: Seq<NoteProperty>)
    requires
        block_tokens_at(ts, p, ls, props, end),
    ensures
        properties_from(ts, p, acc) matches Ok((v, _)) && v == acc + props,
    decreases ls.len(),
{
    reveal_strlit("Properties");
    if ls.len() == 0 {
        assert(acc + props =~= acc);
        lemma_at(ts, p as int, end);
        lemma_skip_filler(ts, p, end, Stop::Close);
        assert(until_end_at(ts, p + end.len(), "Properties"@) == Ok::<(bool, nat), XmlError>((false, p + end.len())));
    } else {
        let l = ls[0];
        let s = layout_tokens(l);
        let it = item_tokens(l);
        let q = p + l.lead.len();
        lemma_at(ts, p as int, s);
        assert forall|i: int| 0 <= i < l.lead.len() implies ts[p + i] == #[trigger] l.lead[i] by {
            assert(s[i] == l.lead[i]);
        }
        assert(ts.subrange(q as int, (q + it.len()) as int) =~= it) by {
            assert forall|i: int| 0 <= i < it.len() implies ts.subrange(q as int, (q + it.len()) as int)[i] == it[i] by {
                assert(s[l.lead.len() + i] == it[i]);
                assert(ts[p + (l.lead.len() + i)] == s[l.lead.len() + i]);
            }
        }
        lemma_property_item(ts, q, l, props[0]);
        lemma_skip_filler(ts, p, l.lead, Stop::Open);
        assert(ts[q as int] == l.open) by {
            assert(it[0] == l.open);
            assert(s[l.lead.len() as int + 0] == it[0]);
        }
        assert(until_end_at(ts, q, "Properties"@) == Ok::<(bool, nat), XmlError>((true, q)));
        lemma_block_reads(ts, p + s.len(), ls.drop_first(), props.drop_first(), end, acc.push(props[0]));
        assert(acc.push(props[0]) + props.drop_first() =~= acc + props);
    }
}

/// Reading a well-formed property block gives back exactly the properties
/// written in it, in order, whatever filler (indentation, comments) stands
/// between its elements; so, as multisets, the decoded variants are the
/// (discriminator, payload) pairs present, whatever their order.
pub proof fn law_property_block_round_trip(ts: Seq<XmlToken>, p: nat, ls: Seq<PropertyLayout>, props: Seq<NoteProperty>, end: Seq<XmlToken>)
    requires
        block_tokens_at(ts, p, ls, props, end),
    ensures
        properties_from(ts, p, Seq::empty()) matches Ok((v, _)) && v == props && v.to_multiset() == props.to_multiset(),
{
    lemma_block_reads(ts, p, ls, props, end, Seq::empty());
    assert(Seq::<NoteProperty>::empty() + props =~= props);
}

/// Two well-formed blocks whose properties are a permutation of each other
/// read to the same multiset of properties.
pub proof fn law_property_order_irrelevant(
    ts1: Seq<XmlToken>, p1: nat, ls1: Seq<PropertyLayout>, props1: Seq<NoteProperty>, end1: Seq<XmlToken>,
    ts2: Seq<XmlToken>, p2: nat, ls2: Seq<PropertyLayout>, props2: Seq<NoteProperty>, end2: Seq<XmlToken>,
)
    requires
        block_tokens_at(ts1, p1, ls1, props1, end1),
        block_tokens_at(ts2, p2, ls2, props2, end2),
        props1.to_multiset() == props2.to_multiset(),
    ensures
        properties_from(ts1, p1, Seq::empty()) matches Ok((v1, _)) && properties_from(ts2, p2, Seq::empty()) matches Ok((v2, _))
            && v1.to_multiset() == v2.to_multiset(),
{
    law_property_block_round_trip(ts1, p1, ls1, props1, end1);
    law_property_block_round_trip(ts2, p2, ls2, props2, end2);
}

/// Whether `n` names none of the note-property variants.
pub open spec fn unknown_name(n: Seq<char>) -> bool {
    &&& n != "ConcertPitch"@
    &&& n != "Fret"@
    &&& n != "Harmonic"@
    &&& n != "HarmonicFret"@
    &&& n != "HarmonicType"@
    &&& n != "HopoOrigin"@
    &&& n != "HopoDestination"@
    &&& n != "Tapped"@
    &&& n != "LeftHandTapped"@
    &&& n != "Midi"@
    &&& n != "Slide"@
    &&& n != "Muted"@
    &&& n != "PalmMuted"@
    &&& n != "String"@
    &&& n != "TransposedPitch"@
}

/// Whether `ts` holds from `p` on the elements `ls`, one for each of
/// `props`, then the filler `end` and a `Property` element whose name
/// attribute `name` is unknown, its start tag ended and its payload begun.
pub open spec fn block_then_unknown_at(ts: Seq<XmlToken>, p: nat, ls: Seq<PropertyLayout>, props: Seq<NoteProperty>, end: Seq<XmlToken>, name: String) -> bool
    decreases ls.len(),
{
    &&& ls.len() == props.len()
    &&& if ls.len() == 0 {
        let q = p + end.len();
        &&& filler(end)
        &&& q + 4 <= ts.len()
        &&& ts.subrange(p as int, q as int) == end
        &&& is_open(ts[q as int], "Property"@)
        &&& ts[q as int + 1] matches XmlToken::Attribute(k, v) && k@ == "name"@ && v == name
        &&& unknown_name(name@)
        &&& ts[q as int + 2] == XmlToken::OpenEnd
        &&& ts[q as int + 3] is Open
    } else {
        let s = layout_tokens(ls[0]);
        &&& p + s.len() <= ts.len()
        &&& ts.subrange(p as int, (p + s.len()) as int) == s
        &&& property_layout(ls[0], props[0])
        &&& block_then_unknown_at(ts, p + s.len(), ls.drop_first(), props.drop_first(), end, name)
    }
}

proof fn lemma_unknown_item(ts: Seq<XmlToken>, q: nat, name: String)
    requires
        q + 4 <= ts.len(),
        is_open(ts[q as int], "Property"@),
        ts[q as int + 1] matches XmlToken::Attribute(k, v) && k@ == "name"@ && v == name,
        unknown_name(name@),
        ts[q as int + 2] == XmlToken::OpenEnd,
        ts[q as int + 3] is Open,
    ensures
        property_item_at(ts, q) == Err::<(NoteProperty, nat), XmlError>(XmlError::UnrecognizedVariant(name)),
{
    reveal_strlit("Property");
    reveal_strlit("name");
    assert(payload_at(name, ts, q + 3) == Err::<(NoteProperty, nat), XmlError>(XmlError::UnrecognizedVariant(name)));
    reveal_with_fuel(skip_until, 2);
    assert(skip_until(ts, q + 2, Stop::Open) == Ok::<nat, XmlError>(q + 3));
}

#[verifier::rlimit(40)]
proof fn lemma_block_unknown(ts: Seq<XmlToken>, p: nat, ls: Seq<PropertyLayout>, props: Seq<NoteProperty>, end: Seq<XmlToken>, name: String, acc: Seq<NoteProperty>)
    requires
        block_then_unknown_at(ts, p, ls, props, end, name),
    ensures
        properties_from(ts, p, acc) == Err::<(Seq<NoteProperty>, nat), XmlError>(XmlError::UnrecognizedVariant(name)),
    decreases ls.len(),
{
    reveal_strlit("Properties");
    reveal_strlit("Property");
    reveal_strlit("name");
    if ls.len() == 0 {
        let q = p + end.len();
        lemma_at(ts, p as int, end);
        lemma_skip_filler(ts, p, end, Stop::Open);
        assert(until_end_at(ts, q, "Properties"@) == Ok::<(bool, nat), XmlError>((true, q)));
        lemma_unknown_item(ts, q, name);
    } else {
        let l = ls[0];
        let s = layout_tokens(l);
        let it = item_tokens(l);
        let q = p + l.lead.len();
        lemma_at(ts, p as int, s);
        assert forall|i: int| 0 <= i < l.lead.len() implies ts[p + i] == #[trigger] l.lead[i] by {
            assert(s[i] == l.lead[i]);
        }
        assert(ts.subrange(q as int, (q + it.len()) as int) =~= it) by {
            assert forall|i: int| 0 <= i < it.len() implies ts.subrange(q as int, (q + it.len()) as int)[i] == it[i] by {
                assert(s[l.lead.len() + i] == it[i]);
                assert(ts[p + (l.lead.len() + i)] == s[l.lead.len() + i]);
            }
        }
        lemma_property_item(ts, q, l, props[0]);
        lemma_skip_filler(ts, p, l.lead, Stop::Open);
        assert(ts[q as int] == l.open) by {
            assert(it[0] == l.open);
            assert(s[l.lead.len() as int + 0] == it[0]);
        }
        assert(until_end_at(ts, q, "Properties"@) == Ok::<(bool, nat), XmlError>((true, q)));
        lemma_block_unknown(ts, p + s.len(), ls.drop_first(), props.drop_first(), end, name, acc.push(props[0]));
    }
}

/// A block whose elements are well formed up to one whose name is unknown
/// fails as a whole with `UnrecognizedVariant` naming it: the unknown
/// element is not skipped and no properties are returned.
pub proof fn law_unknown_property_fails_block(ts: Seq<XmlToken>, p: nat, ls: Seq<PropertyLayout>, props: Seq<NoteProperty>, end: Seq<XmlToken>, name: String)
    requires
        block_then_unknown_at(ts, p, ls, props, end, name),
    ensures
        properties_from(ts, p, Seq::empty()) == Err::<(Seq<NoteProperty>, nat), XmlError>(XmlError::UnrecognizedVariant(name)),
{
    lemma_block_unknown(ts, p, ls, props, end, name, Seq::empty());
}

} // verus!
