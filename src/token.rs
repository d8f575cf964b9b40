//! XML tokens as plain values, and the tokenizer that produces them.
use strong_xml::xmlparser::{ElementEnd, Token};
use strong_xml::XmlReader;
use vstd::prelude::*;

verus! {

/// One token of an XML document.
#[derive(Debug, PartialEq, Eq)]
pub enum XmlToken {
    /// The start of an element (`<name`), with its local name.
    Open(String),
    /// An attribute inside an element start: local name and raw value.
    Attribute(String, String),
    /// The `>` that ends an element start whose content follows.
    OpenEnd,
    /// A closing tag (`</name>`), with its local name.
    Close(String),
    /// The `/>` that ends a self-closing element.
    EmptyEnd,
    /// Character data: text (unescaped as written) or the content of a CDATA section.
    Text(String),
    /// A declaration, processing instruction, comment or DTD part.
    Other,
    /// The tokenizer met a syntax error here; nothing follows.
    Invalid,
}

impl XmlToken {
    /// A copy of this token.
    pub fn copied(&self) -> (r: XmlToken)
        ensures
            r == *self,
    {
        match self {
            XmlToken::Open(n) => XmlToken::Open(n.clone()),
            XmlToken::Attribute(k, v) => XmlToken::Attribute(k.clone(), v.clone()),
            XmlToken::OpenEnd => XmlToken::OpenEnd,
            XmlToken::Close(n) => XmlToken::Close(n.clone()),
            XmlToken::EmptyEnd => XmlToken::EmptyEnd,
            XmlToken::Text(t) => XmlToken::Text(t.clone()),
            XmlToken::Other => XmlToken::Other,
            XmlToken::Invalid => XmlToken::Invalid,
        }
    }
}

#[verifier::external_type_specification]
#[verifier::external_body]
pub struct ExXmlReader<'a>(XmlReader<'a>);

/// The tokens of `text`, in document order, as the tokenizer yields them.
pub uninterp spec fn xml_tokens(text: Seq<char>) -> Seq<XmlToken>;

/// The tokens that `reader` has not yet yielded.
pub uninterp spec fn pending_tokens(reader: XmlReader) -> Seq<XmlToken>;

/// Relies on strong_xml's `XmlReader::new`: a fresh reader over `text` has
/// all the tokens of `text` still to yield.
#[verifier::external_body]
fn open_reader<'a>(text: &'a str) -> (r: XmlReader<'a>)
    ensures
        pending_tokens(r) == xml_tokens(text@),
{
    XmlReader::new(text)
}

/// Relies on strong_xml's `XmlReader::next`: it yields the first pending
/// token and keeps the rest; after a syntax error it yields nothing more.
#[verifier::external_body]
fn next_token(reader: &mut XmlReader) -> (t: Option<XmlToken>)
    ensures
        pending_tokens(*old(reader)).len() == 0 ==> t is None,
        pending_tokens(*old(reader)).len() > 0 ==> t == Some(pending_tokens(*old(reader))[0]),
        pending_tokens(*final(reader)) == pending_tokens(*old(reader)).drop_first()
            || pending_tokens(*old(reader)).len() == 0 && pending_tokens(*final(reader)).len() == 0,
{
    Some(match reader.next()? {
        Ok(Token::ElementStart { local, .. }) => XmlToken::Open(local.to_string()),
        Ok(Token::Attribute { local, value, .. }) => XmlToken::Attribute(local.to_string(), value.to_string()),
        Ok(Token::ElementEnd { end: ElementEnd::Open, .. }) => XmlToken::OpenEnd,
        Ok(Token::ElementEnd { end: ElementEnd::Close(_, local), .. }) => XmlToken::Close(local.to_string()),
        Ok(Token::ElementEnd { end: ElementEnd::Empty, .. }) => XmlToken::EmptyEnd,
        Ok(Token::Text { text }) | Ok(Token::Cdata { text, .. }) => XmlToken::Text(text.to_string()),
        Ok(_) => XmlToken::Other,
        Err(_) => XmlToken::Invalid,
    })
}

/// All tokens of `text`, in document order.
pub fn tokenize(text: &str) -> (r: Vec<XmlToken>)
    ensures
        r@ == xml_tokens(text@),
{
    let mut reader = open_reader(text);
    let mut out: Vec<XmlToken> = Vec::new();
    loop
        invariant_except_break
            out@ + pending_tokens(reader) == xml_tokens(text@),
        ensures
            out@ == xml_tokens(text@),
        decreases pending_tokens(reader).len(),
    {
        let ghost before = pending_tokens(reader);
        match next_token(&mut reader) {
            None => {
                assert(out@ + before =~= out@);
                break;
            },
            Some(t) => {
                assert(out@.push(t) + before.drop_first() =~= out@ + before);
                out.push(t);
            },
        }
    }
    out
}

} // verus!
