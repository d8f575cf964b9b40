//! A pull cursor over XML tokens, and the primitives composed from it.
use crate::text::same_text;
use crate::token::{tokenize, xml_tokens, XmlToken};
use vstd::prelude::*;

verus! {

/// Why reading an XML document failed.
#[derive(Debug, PartialEq, Eq)]
pub enum XmlError {
    /// The tokens ran out where more were needed.
    UnexpectedEof,
    /// The text is not well-formed XML at this point.
    Syntax,
    /// A token of another kind than the one needed.
    UnexpectedToken(XmlToken),
    /// An element or closing tag with another name than the one needed.
    TagMismatch(String),
    /// Text that does not hold a number in the needed range.
    InvalidNumber(String),
    /// A discriminator or note value outside the closed set.
    UnrecognizedVariant(String),
    /// A required child element or attribute is absent.
    Missing(Field),
}

/// The required parts of a document, named in `XmlError::Missing`.
#[derive(Debug, PartialEq, Eq, Clone, Copy)]
pub enum Field {
    Score,
    MasterBars,
    Bars,
    Voices,
    Beats,
    Notes,
    Rhythms,
    BarIds,
    VoiceIds,
    BeatIds,
    Rhythm,
    RhythmRef,
    NoteValue,
    TupletNum,
    TupletDen,
    DotCount,
}

/// Reads the children of the element `tag` from `p` on, whose start tag has
/// been read: `step` reads a child named `n` that starts at its position and
/// folds it into the state. The result is the final state and the position
/// past the end of `tag`.
pub open spec fn children_from<S>(
    ts: Seq<XmlToken>,
    p: nat,
    tag: Seq<char>,
    acc: S,
    step: spec_fn(String, nat, S) -> Result<(S, nat), XmlError>,
) -> Result<(S, nat), XmlError>
    decreases ts.len() - p,
{
    match next_child_at(ts, p, tag) {
        Err(e) => Err(e),
        Ok((None, q)) => Ok((acc, q)),
        Ok((Some(n), q)) => match step(n, q, acc) {
            Err(e) => Err(e),
            Ok((s, r)) => if q < r <= ts.len() {
                proof {
                    lemma_next_child_bounds(ts, p, tag);
                }
                children_from(ts, r, tag, s, step)
            } else {
                Err(XmlError::Syntax)
            },
        },
    }
}

/// Skips the child that starts at `p`, keeping the state.
pub open spec fn skip_child<S>(ts: Seq<XmlToken>, p: nat, s: S) -> Result<(S, nat), XmlError> {
    match subtree_end(ts, p, 0) {
        Ok(q) => Ok((s, q)),
        Err(e) => Err(e),
    }
}

/// Reads the start of the next element, which must be named `tag`.
pub open spec fn element_start_at(ts: Seq<XmlToken>, p: nat, tag: Seq<char>) -> Result<nat, XmlError> {
    match skip_until(ts, p, Stop::Open) {
        Err(e) => Err(e),
        Ok(p1) => open_named_at(ts, p1, tag),
    }
}

/// The kinds of token that a skip stops at.
pub enum Stop {
    Open,
    Close,
    Text,
    EmptyEnd,
}

pub open spec fn stops_at(t: XmlToken, s: Stop) -> bool {
    match s {
        Stop::Open => t is Open,
        Stop::Close => t is Close,
        Stop::Text => t is Text,
        Stop::EmptyEnd => t is EmptyEnd,
    }
}

/// The error for meeting `t` where another kind of token was needed.
pub open spec fn token_error(t: XmlToken) -> XmlError {
    if t is Invalid {
        XmlError::Syntax
    } else {
        XmlError::UnexpectedToken(t)
    }
}

/// The position of the first token at or after `p` of kind `s`.
pub open spec fn skip_until(ts: Seq<XmlToken>, p: nat, s: Stop) -> Result<nat, XmlError>
    decreases ts.len() - p,
{
    if p >= ts.len() {
        Err(XmlError::UnexpectedEof)
    } else if ts[p as int] is Invalid {
        Err(XmlError::Syntax)
    } else if stops_at(ts[p as int], s) {
        Ok(p)
    } else {
        skip_until(ts, p + 1, s)
    }
}

/// A skip stops at a token of the kind asked for, at or after where it starts.
pub broadcast proof fn lemma_skip_until_bounds(ts: Seq<XmlToken>, p: nat, s: Stop)
    ensures
        #[trigger] skip_until(ts, p, s) matches Ok(q) ==> p <= q < ts.len() && stops_at(ts[q as int], s),
    decreases ts.len() - p,
{
    if p < ts.len() && !(ts[p as int] is Invalid) && !stops_at(ts[p as int], s) {
        lemma_skip_until_bounds(ts, p + 1, s);
    }
}

/// The content of an element whose start has been read, up to and past its
/// end: the last character data met, if any.
pub open spec fn text_body_at(ts: Seq<XmlToken>, p: nat, name: Seq<char>, acc: Option<String>) -> Result<(Option<String>, nat), XmlError>
    decreases ts.len() - p,
{
    if p >= ts.len() {
        Err(XmlError::UnexpectedEof)
    } else {
        match ts[p as int] {
            XmlToken::Invalid => Err(XmlError::Syntax),
            XmlToken::EmptyEnd => Ok((acc, p + 1)),
            XmlToken::Text(t) => text_body_at(ts, p + 1, name, Some(t)),
            XmlToken::Close(n) => if n@ == name {
                Ok((acc, p + 1))
            } else {
                Err(XmlError::TagMismatch(n))
            },
            XmlToken::Open(n) => Err(XmlError::UnexpectedToken(XmlToken::Open(n))),
            _ => text_body_at(ts, p + 1, name, acc),
        }
    }
}

pub broadcast proof fn lemma_text_body_bounds(ts: Seq<XmlToken>, p: nat, name: Seq<char>, acc: Option<String>)
    ensures
        #[trigger] text_body_at(ts, p, name, acc) matches Ok((_, q)) ==> p < q <= ts.len(),
    decreases ts.len() - p,
{
    if p < ts.len() {
        match ts[p as int] {
            XmlToken::Text(t) => lemma_text_body_bounds(ts, p + 1, name, Some(t)),
            XmlToken::Invalid | XmlToken::EmptyEnd | XmlToken::Close(_) | XmlToken::Open(_) => {},
            _ => lemma_text_body_bounds(ts, p + 1, name, acc),
        }
    }
}

/// The optional text of the next element, which must be named `name`;
/// `None` for a self-closing or empty element.
pub open spec fn text_element_at(ts: Seq<XmlToken>, p: nat, name: Seq<char>) -> Result<(Option<String>, nat), XmlError> {
    match skip_until(ts, p, Stop::Open) {
        Err(e) => Err(e),
        Ok(p1) => match open_named_at(ts, p1, name) {
            Err(e) => Err(e),
            Ok(p2) => text_body_at(ts, p2, name, None),
        },
    }
}

/// The position just past the element that starts at or after `p`, where
/// `depth` elements are already open.
pub open spec fn subtree_end(ts: Seq<XmlToken>, p: nat, depth: nat) -> Result<nat, XmlError>
    decreases ts.len() - p,
{
    if p >= ts.len() {
        Err(XmlError::UnexpectedEof)
    } else {
        match ts[p as int] {
            XmlToken::Invalid => Err(XmlError::Syntax),
            XmlToken::Open(_) => subtree_end(ts, p + 1, depth + 1),
            XmlToken::Close(_) | XmlToken::EmptyEnd => if depth <= 1 {
                Ok(p + 1)
            } else {
                subtree_end(ts, p + 1, (depth - 1) as nat)
            },
            _ => subtree_end(ts, p + 1, depth),
        }
    }
}

pub broadcast proof fn lemma_subtree_end_bounds(ts: Seq<XmlToken>, p: nat, depth: nat)
    ensures
        #[trigger] subtree_end(ts, p, depth) matches Ok(q) ==> p < q <= ts.len(),
    decreases ts.len() - p,
{
    if p < ts.len() {
        match ts[p as int] {
            XmlToken::Invalid => {},
            XmlToken::Open(_) => lemma_subtree_end_bounds(ts, p + 1, depth + 1),
            XmlToken::Close(_) | XmlToken::EmptyEnd => if depth > 1 {
                lemma_subtree_end_bounds(ts, p + 1, (depth - 1) as nat);
            },
            _ => lemma_subtree_end_bounds(ts, p + 1, depth),
        }
    }
}

/// Inside the element `tag`, from `p`: the name of the next child element,
/// left unread, or `None` past the end of `tag` (its closing tag or `/>`).
pub open spec fn next_child_at(ts: Seq<XmlToken>, p: nat, tag: Seq<char>) -> Result<(Option<String>, nat), XmlError>
    decreases ts.len() - p,
{
    if p >= ts.len() {
        Err(XmlError::UnexpectedEof)
    } else {
        match ts[p as int] {
            XmlToken::Invalid => Err(XmlError::Syntax),
            XmlToken::Open(n) => Ok((Some(n), p)),
            XmlToken::Close(n) => if n@ == tag {
                Ok((None, p + 1))
            } else {
                Err(XmlError::TagMismatch(n))
            },
            XmlToken::EmptyEnd => Ok((None, p + 1)),
            _ => next_child_at(ts, p + 1, tag),
        }
    }
}

pub broadcast proof fn lemma_next_child_bounds(ts: Seq<XmlToken>, p: nat, tag: Seq<char>)
    ensures
        #[trigger] next_child_at(ts, p, tag) matches Ok((c, q)) ==> p <= q <= ts.len()
            && (c matches Some(n) ==> q < ts.len() && ts[q as int] == XmlToken::Open(n)),
    decreases ts.len() - p,
{
    if p < ts.len() {
        match ts[p as int] {
            XmlToken::Invalid | XmlToken::Open(_) | XmlToken::Close(_) | XmlToken::EmptyEnd => {},
            _ => lemma_next_child_bounds(ts, p + 1, tag),
        }
    }
}

/// The value of the attribute `key` among the attributes that follow `p`.
pub open spec fn attr_lookup(ts: Seq<XmlToken>, p: nat, key: Seq<char>) -> Option<String>
    decreases ts.len() - p,
{
    if p >= ts.len() {
        None
    } else {
        match ts[p as int] {
            XmlToken::Attribute(k, v) => if k@ == key {
                Some(v)
            } else {
                attr_lookup(ts, p + 1, key)
            },
            _ => None,
        }
    }
}

pub broadcast group group_cursor_bounds {
    lemma_skip_until_bounds,
    lemma_text_body_bounds,
    lemma_subtree_end_bounds,
    lemma_next_child_bounds,
}

/// Reads an element start at `p`: its name and the position after it.
pub open spec fn open_at(ts: Seq<XmlToken>, p: nat) -> Result<(String, nat), XmlError> {
    if p >= ts.len() {
        Err(XmlError::UnexpectedEof)
    } else {
        match ts[p as int] {
            XmlToken::Open(n) => Ok((n, p + 1)),
            t => Err(token_error(t)),
        }
    }
}

/// Reads a closing tag at `p`: its name and the position after it.
pub open spec fn close_at(ts: Seq<XmlToken>, p: nat) -> Result<(String, nat), XmlError> {
    if p >= ts.len() {
        Err(XmlError::UnexpectedEof)
    } else {
        match ts[p as int] {
            XmlToken::Close(n) => Ok((n, p + 1)),
            t => Err(token_error(t)),
        }
    }
}

/// Reads an attribute at `p`: key, value and the position after it.
pub open spec fn attr_at(ts: Seq<XmlToken>, p: nat) -> Result<(String, String, nat), XmlError> {
    if p >= ts.len() {
        Err(XmlError::UnexpectedEof)
    } else {
        match ts[p as int] {
            XmlToken::Attribute(k, v) => Ok((k, v, p + 1)),
            t => Err(token_error(t)),
        }
    }
}

/// Reads character data at `p`: its content and the position after it.
pub open spec fn text_at(ts: Seq<XmlToken>, p: nat) -> Result<(String, nat), XmlError> {
    if p >= ts.len() {
        Err(XmlError::UnexpectedEof)
    } else {
        match ts[p as int] {
            XmlToken::Text(t) => Ok((t, p + 1)),
            t => Err(token_error(t)),
        }
    }
}

/// Reads an element start named `name` at `p`.
pub open spec fn open_named_at(ts: Seq<XmlToken>, p: nat, name: Seq<char>) -> Result<nat, XmlError> {
    match open_at(ts, p) {
        Ok((n, q)) => if n@ == name { Ok(q) } else { Err(XmlError::TagMismatch(n)) },
        Err(e) => Err(e),
    }
}

/// Reads a closing tag named `name` at `p`.
pub open spec fn close_named_at(ts: Seq<XmlToken>, p: nat, name: Seq<char>) -> Result<nat, XmlError> {
    match close_at(ts, p) {
        Ok((n, q)) => if n@ == name { Ok(q) } else { Err(XmlError::TagMismatch(n)) },
        Err(e) => Err(e),
    }
}

/// Reads an attribute with key `name` at `p`: its value.
pub open spec fn attr_named_at(ts: Seq<XmlToken>, p: nat, name: Seq<char>) -> Result<(String, nat), XmlError> {
    match attr_at(ts, p) {
        Ok((k, v, q)) => if k@ == name {
            Ok((v, q))
        } else {
            Err(XmlError::UnexpectedToken(XmlToken::Attribute(k, v)))
        },
        Err(e) => Err(e),
    }
}

/// From `p`, whether another element starts (`true`) before the closing tag
/// `name` (`false`); the position stays at the token found.
pub open spec fn until_end_at(ts: Seq<XmlToken>, p: nat, name: Seq<char>) -> Result<(bool, nat), XmlError>
    decreases ts.len() - p,
{
    if p >= ts.len() {
        Err(XmlError::UnexpectedEof)
    } else {
        match ts[p as int] {
            XmlToken::Invalid => Err(XmlError::Syntax),
            XmlToken::Open(_) => Ok((true, p)),
            XmlToken::Close(n) => if n@ == name {
                Ok((false, p))
            } else {
                Err(XmlError::UnexpectedToken(XmlToken::Close(n)))
            },
            _ => until_end_at(ts, p + 1, name),
        }
    }
}

/// The scalar wrapped in one element `name` at or after `p`: skip to the
/// element start, open it, skip to its text, read the text, close it.
pub open spec fn simple_text_at(ts: Seq<XmlToken>, p: nat, name: Seq<char>) -> Result<(String, nat), XmlError> {
    match skip_until(ts, p, Stop::Open) {
        Err(e) => Err(e),
        Ok(p1) => match open_named_at(ts, p1, name) {
            Err(e) => Err(e),
            Ok(p2) => match skip_until(ts, p2, Stop::Text) {
                Err(e) => Err(e),
                Ok(p3) => match text_at(ts, p3) {
                    Err(e) => Err(e),
                    Ok((t, p4)) => match close_named_at(ts, p4, name) {
                        Err(e) => Err(e),
                        Ok(p5) => Ok((t, p5)),
                    },
                },
            },
        },
    }
}

/// The self-closing element at or after `p`: its name and the position after its `/>`.
pub open spec fn empty_tag_at(ts: Seq<XmlToken>, p: nat) -> Result<(String, nat), XmlError> {
    match skip_until(ts, p, Stop::Open) {
        Err(e) => Err(e),
        Ok(p1) => match open_at(ts, p1) {
            Err(e) => Err(e),
            Ok((n, p2)) => match skip_until(ts, p2, Stop::EmptyEnd) {
                Err(e) => Err(e),
                Ok(p3) => Ok((n, p3 + 1)),
            },
        },
    }
}

/// A cursor over the tokens of one document.
pub struct ReaderExt {
    pub tokens: Vec<XmlToken>,
    pub pos: usize,
}

impl ReaderExt {
    /// A cursor at the first of `tokens`.
    pub fn new(tokens: Vec<XmlToken>) -> (r: ReaderExt)
        ensures
            r.tokens@ == tokens@,
            r.pos == 0,
    {
        ReaderExt { tokens, pos: 0 }
    }

    /// A cursor at the first token of `text`.
    pub fn from_text(text: &str) -> (r: ReaderExt)
        ensures
            r.tokens@ == xml_tokens(text@),
            r.pos == 0,
    {
        ReaderExt { tokens: tokenize(text), pos: 0 }
    }

    pub open spec fn toks(&self) -> Seq<XmlToken> {
        self.tokens@
    }

    pub open spec fn at(&self) -> nat {
        self.pos as nat
    }

    /// The next token, left in place; `None` at the end.
    pub fn peek(&self) -> (r: Option<&XmlToken>)
        ensures
            self.at() < self.toks().len() ==> r == Some(&self.toks()[self.at() as int]),
            self.at() >= self.toks().len() ==> r is None,
    {
        if self.pos < self.tokens.len() {
            Some(&self.tokens[self.pos])
        } else {
            None
        }
    }

    /// The next token, consumed; `None` at the end.
    pub fn next(&mut self) -> (r: Option<XmlToken>)
        ensures
            final(self).toks() == old(self).toks(),
            old(self).at() < old(self).toks().len() ==> r == Some(old(self).toks()[old(self).at() as int])
                && final(self).at() == old(self).at() + 1,
            old(self).at() >= old(self).toks().len() ==> r is None && final(self).at() == old(self).at(),
    {
        if self.pos < self.tokens.len() {
            let t = self.tokens[self.pos].copied();
            self.pos = self.pos + 1;
            Some(t)
        } else {
            None
        }
    }

    fn skip(&mut self, s: Stop) -> (r: Result<(), XmlError>)
        ensures
            final(self).toks() == old(self).toks(),
            r is Ok ==> final(self).at() < final(self).toks().len(),
            match skip_until(old(self).toks(), old(self).at(), s) {
                Ok(q) => r is Ok && final(self).at() == q,
                Err(e) => r == Err::<(), XmlError>(e),
            },
    {
        let ghost start = self.at();
        while self.pos < self.tokens.len()
            invariant
                self.toks() == old(self).toks(),
                skip_until(self.toks(), self.at(), s) == skip_until(self.toks(), start, s),
                start == old(self).at(),
            decreases self.tokens.len() - self.pos,
        {
            let t = &self.tokens[self.pos];
            let hit = match s {
                Stop::Open => matches!(t, XmlToken::Open(_)),
                Stop::Close => matches!(t, XmlToken::Close(_)),
                Stop::Text => matches!(t, XmlToken::Text(_)),
                Stop::EmptyEnd => matches!(t, XmlToken::EmptyEnd),
            };
            if matches!(t, XmlToken::Invalid) {
                return Err(XmlError::Syntax);
            }
            if hit {
                return Ok(());
            }
            self.pos = self.pos + 1;
        }
        Err(XmlError::UnexpectedEof)
    }

    /// Moves to the next element start.
    pub fn skip_to_open(&mut self) -> (r: Result<(), XmlError>)
        ensures
            final(self).toks() == old(self).toks(),
            match skip_until(old(self).toks(), old(self).at(), Stop::Open) {
                Ok(q) => r is Ok && final(self).at() == q,
                Err(e) => r == Err::<(), XmlError>(e),
            },
    {
        self.skip(Stop::Open)
    }

    /// Moves to the next closing tag.
    pub fn skip_to_close(&mut self) -> (r: Result<(), XmlError>)
        ensures
            final(self).toks() == old(self).toks(),
            match skip_until(old(self).toks(), old(self).at(), Stop::Close) {
                Ok(q) => r is Ok && final(self).at() == q,
                Err(e) => r == Err::<(), XmlError>(e),
            },
    {
        self.skip(Stop::Close)
    }

    /// Moves to the next character data.
    pub fn skip_to_text(&mut self) -> (r: Result<(), XmlError>)
        ensures
            final(self).toks() == old(self).toks(),
            match skip_until(old(self).toks(), old(self).at(), Stop::Text) {
                Ok(q) => r is Ok && final(self).at() == q,
                Err(e) => r == Err::<(), XmlError>(e),
            },
    {
        self.skip(Stop::Text)
    }

    /// Moves past the next `/>`.
    pub fn skip_over_close_empty(&mut self) -> (r: Result<(), XmlError>)
        ensures
            final(self).toks() == old(self).toks(),
            match skip_until(old(self).toks(), old(self).at(), Stop::EmptyEnd) {
                Ok(q) => r is Ok && final(self).at() == q + 1,
                Err(e) => r == Err::<(), XmlError>(e),
            },
    {
        self.skip(Stop::EmptyEnd)?;
        if self.pos < self.tokens.len() {
            self.pos = self.pos + 1;
        }
        Ok(())
    }

    /// Moves past the next closing tag.
    pub fn skip_over_close(&mut self) -> (r: Result<(), XmlError>)
        ensures
            final(self).toks() == old(self).toks(),
            match skip_until(old(self).toks(), old(self).at(), Stop::Close) {
                Ok(q) => r is Ok && final(self).at() == q + 1,
                Err(e) => r == Err::<(), XmlError>(e),
            },
    {
        self.skip(Stop::Close)?;
        if self.pos < self.tokens.len() {
            self.pos = self.pos + 1;
        }
        Ok(())
    }

    /// Consumes an element start and returns its name.
    pub fn open_tag(&mut self) -> (r: Result<String, XmlError>)
        ensures
            final(self).toks() == old(self).toks(),
            match open_at(old(self).toks(), old(self).at()) {
                Ok((n, q)) => r == Ok::<String, XmlError>(n) && final(self).at() == q,
                Err(e) => r == Err::<String, XmlError>(e),
            },
    {
        match self.next() {
            None => Err(XmlError::UnexpectedEof),
            Some(XmlToken::Open(n)) => Ok(n),
            Some(XmlToken::Invalid) => Err(XmlError::Syntax),
            Some(t) => Err(XmlError::UnexpectedToken(t)),
        }
    }

    /// Consumes an element start that must be named `name`.
    pub fn open_tag_named(&mut self, name: &str) -> (r: Result<(), XmlError>)
        ensures
            final(self).toks() == old(self).toks(),
            match open_named_at(old(self).toks(), old(self).at(), name@) {
                Ok(q) => r is Ok && final(self).at() == q,
                Err(e) => r == Err::<(), XmlError>(e),
            },
    {
        let tag = self.open_tag()?;
        if same_text(tag.as_str(), name) {
            Ok(())
        } else {
            Err(XmlError::TagMismatch(tag))
        }
    }

    /// Consumes a closing tag and returns its name.
    pub fn close_tag(&mut self) -> (r: Result<String, XmlError>)
        ensures
            final(self).toks() == old(self).toks(),
            match close_at(old(self).toks(), old(self).at()) {
                Ok((n, q)) => r == Ok::<String, XmlError>(n) && final(self).at() == q,
                Err(e) => r == Err::<String, XmlError>(e),
            },
    {
        match self.next() {
            None => Err(XmlError::UnexpectedEof),
            Some(XmlToken::Close(n)) => Ok(n),
            Some(XmlToken::Invalid) => Err(XmlError::Syntax),
            Some(t) => Err(XmlError::UnexpectedToken(t)),
        }
    }

    /// Consumes a closing tag that must be named `name`.
    pub fn close_tag_named(&mut self, name: &str) -> (r: Result<(), XmlError>)
        ensures
            final(self).toks() == old(self).toks(),
            match close_named_at(old(self).toks(), old(self).at(), name@) {
                Ok(q) => r is Ok && final(self).at() == q,
                Err(e) => r == Err::<(), XmlError>(e),
            },
    {
        let tag = self.close_tag()?;
        if same_text(tag.as_str(), name) {
            Ok(())
        } else {
            Err(XmlError::TagMismatch(tag))
        }
    }

    /// Consumes an attribute and returns its key and value.
    pub fn attr(&mut self) -> (r: Result<(String, String), XmlError>)
        ensures
            final(self).toks() == old(self).toks(),
            match attr_at(old(self).toks(), old(self).at()) {
                Ok((k, v, q)) => r == Ok::<(String, String), XmlError>((k, v)) && final(self).at() == q,
                Err(e) => r == Err::<(String, String), XmlError>(e),
            },
    {
        match self.next() {
            None => Err(XmlError::UnexpectedEof),
            Some(XmlToken::Attribute(k, v)) => Ok((k, v)),
            Some(XmlToken::Invalid) => Err(XmlError::Syntax),
            Some(t) => Err(XmlError::UnexpectedToken(t)),
        }
    }

    /// Consumes an attribute whose key must be `name`, and returns its value.
    pub fn attr_named(&mut self, name: &str) -> (r: Result<String, XmlError>)
        ensures
            final(self).toks() == old(self).toks(),
            match attr_named_at(old(self).toks(), old(self).at(), name@) {
                Ok((v, q)) => r == Ok::<String, XmlError>(v) && final(self).at() == q,
                Err(e) => r == Err::<String, XmlError>(e),
            },
    {
        let (k, v) = self.attr()?;
        if same_text(k.as_str(), name) {
            Ok(v)
        } else {
            Err(XmlError::UnexpectedToken(XmlToken::Attribute(k, v)))
        }
    }

    /// Consumes character data and returns it.
    pub fn text(&mut self) -> (r: Result<String, XmlError>)
        ensures
            final(self).toks() == old(self).toks(),
            match text_at(old(self).toks(), old(self).at()) {
                Ok((t, q)) => r == Ok::<String, XmlError>(t) && final(self).at() == q,
                Err(e) => r == Err::<String, XmlError>(e),
            },
    {
        match self.next() {
            None => Err(XmlError::UnexpectedEof),
            Some(XmlToken::Text(t)) => Ok(t),
            Some(XmlToken::Invalid) => Err(XmlError::Syntax),
            Some(t) => Err(XmlError::UnexpectedToken(t)),
        }
    }

    /// Moves to the next element start (`true`) or to the closing tag `name`
    /// (`false`), whichever comes first; another closing tag is an error.
    pub fn until_end_tag(&mut self, name: &str) -> (r: Result<bool, XmlError>)
        ensures
            final(self).toks() == old(self).toks(),
            match until_end_at(old(self).toks(), old(self).at(), name@) {
                Ok((b, q)) => r == Ok::<bool, XmlError>(b) && final(self).at() == q,
                Err(e) => r == Err::<bool, XmlError>(e),
            },
    {
        let ghost start = self.at();
        while self.pos < self.tokens.len()
            invariant
                self.toks() == old(self).toks(),
                until_end_at(self.toks(), self.at(), name@) == until_end_at(self.toks(), start, name@),
                start == old(self).at(),
            decreases self.tokens.len() - self.pos,
        {
            match &self.tokens[self.pos] {
                XmlToken::Invalid => {
                    return Err(XmlError::Syntax);
                },
                XmlToken::Open(_) => {
                    return Ok(true);
                },
                XmlToken::Close(n) => {
                    if same_text(n.as_str(), name) {
                        return Ok(false);
                    } else {
                        return Err(XmlError::UnexpectedToken(XmlToken::Close(n.clone())));
                    }
                },
                _ => {},
            }
            self.pos = self.pos + 1;
        }
        Err(XmlError::UnexpectedEof)
    }

    /// Reads the scalar wrapped in the next element, which must be named `name`.
    pub fn simple_tag_text(&mut self, name: &str) -> (r: Result<String, XmlError>)
        ensures
            final(self).toks() == old(self).toks(),
            match simple_text_at(old(self).toks(), old(self).at(), name@) {
                Ok((t, q)) => r == Ok::<String, XmlError>(t) && final(self).at() == q,
                Err(e) => r == Err::<String, XmlError>(e),
            },
    {
        self.skip_to_open()?;
        self.open_tag_named(name)?;
        self.skip_to_text()?;
        let t = self.text()?;
        self.close_tag_named(name)?;
        Ok(t)
    }

    /// Reads the optional text of the next element, which must be named `name`.
    pub fn text_element(&mut self, name: &str) -> (r: Result<Option<String>, XmlError>)
        ensures
            final(self).toks() == old(self).toks(),
            match text_element_at(old(self).toks(), old(self).at(), name@) {
                Ok((t, q)) => r == Ok::<Option<String>, XmlError>(t) && final(self).at() == q,
                Err(e) => r == Err::<Option<String>, XmlError>(e),
            },
    {
        self.skip_to_open()?;
        self.open_tag_named(name)?;
        let ghost start = self.at();
        let mut acc: Option<String> = None;
        while self.pos < self.tokens.len()
            invariant
                self.toks() == old(self).toks(),
                text_body_at(self.toks(), self.at(), name@, acc) == text_body_at(self.toks(), start, name@, None),
                text_element_at(old(self).toks(), old(self).at(), name@) == text_body_at(self.toks(), start, name@, None),
            decreases self.tokens.len() - self.pos,
        {
            match &self.tokens[self.pos] {
                XmlToken::Invalid => {
                    return Err(XmlError::Syntax);
                },
                XmlToken::EmptyEnd => {
                    self.pos = self.pos + 1;
                    return Ok(acc);
                },
                XmlToken::Text(t) => {
                    acc = Some(t.clone());
                },
                XmlToken::Close(n) => {
                    if same_text(n.as_str(), name) {
                        self.pos = self.pos + 1;
                        return Ok(acc);
                    } else {
                        return Err(XmlError::TagMismatch(n.clone()));
                    }
                },
                XmlToken::Open(n) => {
                    return Err(XmlError::UnexpectedToken(XmlToken::Open(n.clone())));
                },
                _ => {},
            }
            self.pos = self.pos + 1;
        }
        Err(XmlError::UnexpectedEof)
    }

    /// Moves past the element that starts here, with everything inside it.
    pub fn skip_element(&mut self) -> (r: Result<(), XmlError>)
        ensures
            final(self).toks() == old(self).toks(),
            match subtree_end(old(self).toks(), old(self).at(), 0) {
                Ok(q) => r is Ok && final(self).at() == q,
                Err(e) => r == Err::<(), XmlError>(e),
            },
    {
        let mut depth: usize = 0;
        let ghost start = self.at();
        while self.pos < self.tokens.len()
            invariant
                self.toks() == old(self).toks(),
                subtree_end(self.toks(), self.at(), depth as nat) == subtree_end(self.toks(), start, 0),
                start == old(self).at(),
                depth <= self.pos,
            decreases self.tokens.len() - self.pos,
        {
            match &self.tokens[self.pos] {
                XmlToken::Invalid => {
                    return Err(XmlError::Syntax);
                },
                XmlToken::Open(_) => {
                    depth = depth + 1;
                },
                XmlToken::Close(_) | XmlToken::EmptyEnd => {
                    if depth <= 1 {
                        self.pos = self.pos + 1;
                        return Ok(());
                    }
                    depth = depth - 1;
                },
                _ => {},
            }
            self.pos = self.pos + 1;
        }
        Err(XmlError::UnexpectedEof)
    }

    /// Inside the element `tag`: the name of the next child element, left
    /// unread, or `None` after moving past the end of `tag`.
    pub fn next_child(&mut self, tag: &str) -> (r: Result<Option<String>, XmlError>)
        ensures
            final(self).toks() == old(self).toks(),
            match next_child_at(old(self).toks(), old(self).at(), tag@) {
                Ok((c, q)) => r == Ok::<Option<String>, XmlError>(c) && final(self).at() == q,
                Err(e) => r == Err::<Option<String>, XmlError>(e),
            },
    {
        let ghost start = self.at();
        while self.pos < self.tokens.len()
            invariant
                self.toks() == old(self).toks(),
                next_child_at(self.toks(), self.at(), tag@) == next_child_at(self.toks(), start, tag@),
                start == old(self).at(),
            decreases self.tokens.len() - self.pos,
        {
            match &self.tokens[self.pos] {
                XmlToken::Invalid => {
                    return Err(XmlError::Syntax);
                },
                XmlToken::Open(n) => {
                    return Ok(Some(n.clone()));
                },
                XmlToken::Close(n) => {
                    if same_text(n.as_str(), tag) {
                        self.pos = self.pos + 1;
                        return Ok(None);
                    } else {
                        return Err(XmlError::TagMismatch(n.clone()));
                    }
                },
                XmlToken::EmptyEnd => {
                    self.pos = self.pos + 1;
                    return Ok(None);
                },
                _ => {},
            }
            self.pos = self.pos + 1;
        }
        Err(XmlError::UnexpectedEof)
    }

    /// The value of the attribute `key` of the element that starts here.
    pub fn attr_value(&self, key: &str) -> (r: Option<String>)
        ensures
            r == attr_lookup(self.toks(), self.at() + 1, key@),
    {
        if self.pos >= self.tokens.len() {
            return None;
        }
        let mut i: usize = self.pos + 1;
        while i < self.tokens.len()
            invariant
                self.pos < i,
                attr_lookup(self.toks(), i as nat, key@) == attr_lookup(self.toks(), self.at() + 1, key@),
            decreases self.tokens.len() - i,
        {
            match &self.tokens[i] {
                XmlToken::Attribute(k, v) => {
                    if same_text(k.as_str(), key) {
                        return Some(v.clone());
                    }
                },
                _ => {
                    return None;
                },
            }
            i = i + 1;
        }
        None
    }

    /// Reads the next self-closing element and returns its name.
    pub fn empty_tag(&mut self) -> (r: Result<String, XmlError>)
        ensures
            final(self).toks() == old(self).toks(),
            match empty_tag_at(old(self).toks(), old(self).at()) {
                Ok((n, q)) => r == Ok::<String, XmlError>(n) && final(self).at() == q,
                Err(e) => r == Err::<String, XmlError>(e),
            },
    {
        self.skip_to_open()?;
        let t = self.open_tag()?;
        self.skip_over_close_empty()?;
        Ok(t)
    }
}

} // verus!
