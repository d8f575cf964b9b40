//! Entry points: the error taxonomy, dispatch on the file extension, and
//! decoding of a score document into a song.
use crate::binary::{utf8_string, DecodeError};
use crate::convert::{gpif_to_tracks, refs_ok, regular, tracks_match, Collection, ConvertError};
use crate::cursor::{ReaderExt, XmlError};
use crate::schema::{gpif_at, GpifView, GPIF};
use crate::song::Song;
use crate::text::same_text;
use crate::token::{tokenize, xml_tokens, XmlToken};
use vstd::prelude::*;
use vstd::string::StringExecFns;
use vstd::utf8::{decode_utf8, valid_utf8};

verus! {

/// Why loading a document failed.
#[derive(Debug, PartialEq, Eq)]
pub enum LoadError {
    /// The file extension is missing or names no known generation.
    VersionDetection(String),
    /// A known generation that this library does not decode.
    Unsupported(String),
    /// The archive could not be opened or lacks the score entry.
    Container(String),
    /// Bytes that are not valid UTF-8 where text is required.
    Encoding,
    /// The score document does not have the expected structure.
    Malformed(XmlError),
    /// A discriminator or note value outside the closed set.
    UnrecognizedVariant(String),
    /// An id outside the bounds of the collection it refers into.
    BrokenReference(Collection, i64),
    /// A master bar, by position, that lists another number of bars than the first.
    IrregularMasterBar(usize),
    /// A binary document could not be decoded.
    Binary(DecodeError),
}

/// The document generations told apart by extension.
#[derive(Debug, PartialEq, Eq, Clone, Copy)]
pub enum Format {
    /// The zip-contained XML generation.
    Gpif,
}

/// The load error for a score-document error.
pub open spec fn xml_error(e: XmlError) -> LoadError {
    match e {
        XmlError::UnrecognizedVariant(n) => LoadError::UnrecognizedVariant(n),
        _ => LoadError::Malformed(e),
    }
}

/// The load error for a resolution error.
pub open spec fn convert_error(e: ConvertError) -> LoadError {
    match e {
        ConvertError::BrokenReference(c, id) => LoadError::BrokenReference(c, id),
        ConvertError::UnrecognizedVariant(n) => LoadError::UnrecognizedVariant(n),
        ConvertError::IrregularMasterBar(i) => LoadError::IrregularMasterBar(i),
    }
}

fn to_load_error(e: XmlError) -> (r: LoadError)
    ensures
        r == xml_error(e),
{
    match e {
        XmlError::UnrecognizedVariant(n) => LoadError::UnrecognizedVariant(n),
        _ => LoadError::Malformed(e),
    }
}

fn from_convert_error(e: ConvertError) -> (r: LoadError)
    ensures
        r == convert_error(e),
{
    match e {
        ConvertError::BrokenReference(c, id) => LoadError::BrokenReference(c, id),
        ConvertError::UnrecognizedVariant(n) => LoadError::UnrecognizedVariant(n),
        ConvertError::IrregularMasterBar(i) => LoadError::IrregularMasterBar(i),
    }
}

/// The upper-case form of `s`, as std's `str::to_uppercase` gives it.
pub uninterp spec fn upper_of(s: Seq<char>) -> Seq<char>;

/// Relies on std's `str::to_uppercase`: the result depends on the characters alone.
#[verifier::external_body]
fn uppercase(s: &str) -> (r: String)
    ensures
        r@ == upper_of(s@),
{
    s.to_uppercase()
}

/// Picks the format for an upper-cased extension: `GP` is the XML
/// generation; `GP3`, `GP4`, `GP5` and `GPX` are not decoded from a file;
/// anything else is unknown.
pub fn format_for_upper(ext: &str) -> (r: Result<Format, LoadError>)
    ensures
        ext@ == "GP"@ ==> r == Ok::<Format, LoadError>(Format::Gpif),
        (ext@ == "GP3"@ || ext@ == "GP4"@ || ext@ == "GP5"@ || ext@ == "GPX"@) ==> (r matches Err(LoadError::Unsupported(n)) && n@ == ext@),
        !(ext@ == "GP"@ || ext@ == "GP3"@ || ext@ == "GP4"@ || ext@ == "GP5"@ || ext@ == "GPX"@) ==> (r matches Err(LoadError::VersionDetection(n)) && n@ == ext@),
{
    proof {
        reveal_strlit("GP");
        reveal_strlit("GP3");
        reveal_strlit("GP4");
        reveal_strlit("GP5");
        reveal_strlit("GPX");
        assert("GP"@.len() == 2);
        assert("GP3"@.len() == 3 && "GP4"@.len() == 3 && "GP5"@.len() == 3 && "GPX"@.len() == 3);
    }
    if same_text(ext, "GP") {
        Ok(Format::Gpif)
    } else if same_text(ext, "GP3") || same_text(ext, "GP4") || same_text(ext, "GP5") || same_text(ext, "GPX") {
        Err(LoadError::Unsupported(String::from_str(ext)))
    } else {
        Err(LoadError::VersionDetection(String::from_str(ext)))
    }
}

/// Picks the format for a file extension, compared without regard to case;
/// a missing extension is a version-detection error.
pub fn detect_format(ext: Option<&str>) -> (r: Result<Format, LoadError>)
    ensures
        ext is None ==> r is Err && r->Err_0 is VersionDetection,
        ext matches Some(e) ==> (upper_of(e@) == "GP"@ <==> r is Ok),
        ext matches Some(e) ==> (upper_of(e@) == "GP"@ ==> r == Ok::<Format, LoadError>(Format::Gpif)),
        ext matches Some(e) ==> ((upper_of(e@) == "GP3"@ || upper_of(e@) == "GP4"@ || upper_of(e@) == "GP5"@
            || upper_of(e@) == "GPX"@) ==> (r matches Err(LoadError::Unsupported(n)) && n@ == upper_of(e@))),
        ext matches Some(e) ==> (!(upper_of(e@) == "GP"@ || upper_of(e@) == "GP3"@ || upper_of(e@) == "GP4"@
            || upper_of(e@) == "GP5"@ || upper_of(e@) == "GPX"@) ==> (r matches Err(LoadError::VersionDetection(n))
            && n@ == upper_of(e@))),
{
    match ext {
        None => Err(LoadError::VersionDetection(String::from_str("no file extension"))),
        Some(e) => {
            let up = uppercase(e);
            format_for_upper(up.as_str())
        },
    }
}

/// The text of an optional element, empty when absent.
pub open spec fn text_or_empty(t: Option<String>) -> Seq<char> {
    match t {
        Some(s) => s@,
        None => Seq::empty(),
    }
}

fn owned_text(t: &Option<String>) -> (r: String)
    ensures
        r@ == text_or_empty(*t),
{
    match t {
        Some(s) => s.clone(),
        None => String::new(),
    }
}

/// Whether `s` is the song that document `g` describes: its metadata from
/// the score fields and its tracks resolved from the id graph.
pub open spec fn song_of(s: Song, g: GpifView) -> bool {
    &&& s.name@ == text_or_empty(g.score.title)
    &&& s.subtitle@ == text_or_empty(g.score.subtitle)
    &&& s.artist@ == text_or_empty(g.score.artist)
    &&& s.album@ == text_or_empty(g.score.album)
    &&& s.author@ == text_or_empty(g.score.music)
    &&& s.words@ == text_or_empty(g.score.words)
    &&& s.copyright@ == text_or_empty(g.score.copyright)
    &&& s.transcriber@ == text_or_empty(g.score.tabber)
    &&& s.instructions@ == text_or_empty(g.score.instructions)
    &&& s.notice@.len() == g.score.notices.len()
    &&& forall|i: int| 0 <= i < s.notice@.len() ==> #[trigger] s.notice@[i]@ == text_or_empty(g.score.notices[i])
    &&& tracks_match(s.tracks@, g)
}

/// Resolves a document into a song.
pub fn gpif_to_song(gpif: &GPIF) -> (r: Result<Song, ConvertError>)
    ensures
        r is Ok <==> regular(gpif@) && refs_ok(gpif@, true),
        r matches Ok(s) ==> song_of(s, gpif@),
        r matches Err(ConvertError::IrregularMasterBar(_)) <==> !regular(gpif@),
        r matches Err(ConvertError::BrokenReference(_, _)) ==> regular(gpif@) && !refs_ok(gpif@, false),
        r matches Err(ConvertError::UnrecognizedVariant(_)) ==> regular(gpif@) && !crate::convert::all_rhythms_known(gpif@),
{
    let tracks = gpif_to_tracks(gpif)?;
    let score = &gpif.score;
    let mut notice: Vec<String> = Vec::new();
    for i in 0..score.notices.len()
        invariant
            notice@.len() == i,
            forall|j: int| 0 <= j < i ==> #[trigger] notice@[j]@ == text_or_empty(score.notices@[j]),
    {
        notice.push(owned_text(&score.notices[i]));
    }
    let mut song = Song::default();
    song.name = owned_text(&score.title);
    song.subtitle = owned_text(&score.subtitle);
    song.artist = owned_text(&score.artist);
    song.album = owned_text(&score.album);
    song.author = owned_text(&score.music);
    song.words = owned_text(&score.words);
    song.copyright = owned_text(&score.copyright);
    song.transcriber = owned_text(&score.tabber);
    song.instructions = owned_text(&score.instructions);
    song.notice = notice;
    song.tracks = tracks;
    Ok(song)
}

/// Decodes the tokens of a score document into a song.
pub fn load_tokens(tokens: Vec<XmlToken>) -> (r: Result<Song, LoadError>)
    ensures
        match gpif_at(tokens@, 0) {
            Err(e) => r == Err::<Song, LoadError>(xml_error(e)),
            Ok((g, _)) => (r is Ok <==> regular(g) && refs_ok(g, true))
                && (r matches Ok(s) ==> song_of(s, g))
                && (r matches Err(LoadError::BrokenReference(_, _)) ==> !refs_ok(g, false))
                && (r matches Err(LoadError::IrregularMasterBar(_)) <==> !regular(g)),
        },
{
    let mut reader = ReaderExt::new(tokens);
    let gpif = match GPIF::read(&mut reader) {
        Ok(g) => g,
        Err(e) => {
            return Err(to_load_error(e));
        },
    };
    match gpif_to_song(&gpif) {
        Ok(s) => Ok(s),
        Err(e) => Err(from_convert_error(e)),
    }
}

/// Decodes the bytes of a score document (UTF-8 XML) into a song.
pub fn load_score(bytes: Vec<u8>) -> (r: Result<Song, LoadError>)
    ensures
        !valid_utf8(bytes@) ==> r == Err::<Song, LoadError>(LoadError::Encoding),
        valid_utf8(bytes@) ==> match gpif_at(xml_tokens(decode_utf8(bytes@)), 0) {
            Err(e) => r == Err::<Song, LoadError>(xml_error(e)),
            Ok((g, _)) => (r is Ok <==> regular(g) && refs_ok(g, true))
                && (r matches Ok(s) ==> song_of(s, g))
                && (r matches Err(LoadError::BrokenReference(_, _)) ==> !refs_ok(g, false)),
        },
{
    let text = match utf8_string(bytes) {
        Some(t) => t,
        None => {
            return Err(LoadError::Encoding);
        },
    };
    load_tokens(tokenize(text.as_str()))
}

} // verus!
