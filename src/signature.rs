//! Key and time signatures.
use crate::duration::{Duration, QUARTER_CLASS};
use vstd::prelude::*;
use vstd::string::StringExecFns;

verus! {

/// A key signature: sharps (positive) or flats (negative), and the mode.
#[derive(Debug, Clone, Copy, PartialEq, Eq, Structural)]
pub struct KeySignature {
    pub key: i8,
    pub is_minor: bool,
}

/// A time signature: beats per measure, the beat's duration, beam grouping.
#[derive(Debug, PartialEq, Eq)]
pub struct TimeSignature {
    pub numerator: i8,
    pub denominator: Duration,
    pub beams: Vec<i32>,
}

impl Default for KeySignature {
    fn default() -> (k: KeySignature)
        ensures
            k.key == 0 && !k.is_minor,
    {
        KeySignature { key: 0, is_minor: false }
    }
}

impl Default for TimeSignature {
    fn default() -> (t: TimeSignature)
        ensures
            t.numerator == 4,
            t.denominator == Duration::plain(QUARTER_CLASS),
            t.beams@ == seq![2i32, 2, 2, 2],
    {
        TimeSignature { numerator: 4, denominator: Duration::default(), beams: vec![2, 2, 2, 2] }
    }
}

/// The name of the key at `index` in the table of the seventeen major keys
/// from F♭ to G# followed by the seventeen minor keys from D♭ to E#.
pub open spec fn key_name(index: i8) -> Seq<char> {
    match index {
        0 => "F♭ major"@,
        1 => "C♭ major"@,
        2 => "G♭ major"@,
        3 => "D♭ major"@,
        4 => "A♭ major"@,
        5 => "E♭ major"@,
        6 => "B♭ major"@,
        7 => "F major"@,
        8 => "C major"@,
        9 => "G major"@,
        10 => "D major"@,
        11 => "A major"@,
        12 => "E major"@,
        13 => "B major"@,
        14 => "F# major"@,
        15 => "C# major"@,
        16 => "G# major"@,
        17 => "D♭ minor"@,
        18 => "A♭ minor"@,
        19 => "E♭ minor"@,
        20 => "B♭ minor"@,
        21 => "F minor"@,
        22 => "C minor"@,
        23 => "G minor"@,
        24 => "D minor"@,
        25 => "A minor"@,
        26 => "E minor"@,
        27 => "B minor"@,
        28 => "F# minor"@,
        29 => "C# minor"@,
        30 => "G# minor"@,
        31 => "D# minor"@,
        32 => "A# minor"@,
        33 => "E# minor"@,
        _ => Seq::empty(),
    }
}

/// The table position of a key: majors start at F♭ (eight flats), minors at
/// D♭ (eight flats) right after the majors.
pub open spec fn key_index(k: KeySignature) -> int {
    if k.is_minor {
        25 + k.key
    } else {
        8 + k.key
    }
}

impl KeySignature {
    /// The name of this key, such as `C major` or `A minor`.
    pub fn to_string(&self) -> (r: String)
        requires
            -8 <= self.key <= 8,
        ensures
            r@ == key_name(key_index(*self) as i8),
    {
        let index: i8 = if self.is_minor {
            25 + self.key
        } else {
            8 + self.key
        };
        let name: &str = match index {
            0 => "F♭ major",
            1 => "C♭ major",
            2 => "G♭ major",
            3 => "D♭ major",
            4 => "A♭ major",
            5 => "E♭ major",
            6 => "B♭ major",
            7 => "F major",
            8 => "C major",
            9 => "G major",
            10 => "D major",
            11 => "A major",
            12 => "E major",
            13 => "B major",
            14 => "F# major",
            15 => "C# major",
            16 => "G# major",
            17 => "D♭ minor",
            18 => "A♭ minor",
            19 => "E♭ minor",
            20 => "B♭ minor",
            21 => "F minor",
            22 => "C minor",
            23 => "G minor",
            24 => "D minor",
            25 => "A minor",
            26 => "E minor",
            27 => "B minor",
            28 => "F# minor",
            29 => "C# minor",
            30 => "G# minor",
            31 => "D# minor",
            32 => "A# minor",
            33 => "E# minor",
            _ => "",
        };
        String::from_str(name)
    }
}

} // verus!
