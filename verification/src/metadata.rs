//! The item-level metadata document: identifier and description, the
//! latter turned from escaped HTML into markdown.

use vstd::prelude::*;
use crate::manifest::{spec_find_delimited, tag_open, tag_close, get_value, find_delimited,
    is_first_delim, delim_value_at};
use crate::text::{spec_trim, trim_exec, push_char};

verus! {

/// What `html_escape::decode_html_entities` returns for a text: the text
/// with its HTML entities decoded. The result depends on the text alone.
pub uninterp spec fn entities_decoded(s: Seq<char>) -> Seq<char>;

/// What `html2md::parse_html` returns for an HTML text: its markdown
/// rendering. The result depends on the text alone.
pub uninterp spec fn markdown_of(html: Seq<char>) -> Seq<char>;

/// Relies on `html_escape::decode_html_entities`: decodes the HTML
/// entities of the text, a function of the text alone.
#[verifier::external_body]
fn decode_entities(s: &str) -> (r: String)
    ensures
        r@ == entities_decoded(s@),
{
    html_escape::decode_html_entities(s).into_owned()
}

/// Relies on `html2md::parse_html`: renders HTML as markdown, a function
/// of the text alone.
#[verifier::external_body]
fn html_to_markdown(s: &str) -> (r: String)
    ensures
        r@ == markdown_of(s@),
{
    html2md::parse_html(s)
}

/// The first `<tag>...</tag>` value of the document, if any.
pub open spec fn spec_tag_value(tag: Seq<char>, xml: Seq<char>) -> Option<Seq<char>> {
    spec_find_delimited(xml, tag_open(tag), tag_close(tag), '<')
}

/// Reads the first `<tag>...</tag>` value of the document.
fn tag_value(tag: &str, xml: &str) -> (r: Option<String>)
    ensures
        match r {
            Some(v) => spec_tag_value(tag@, xml@) == Some(v@),
            None => spec_tag_value(tag@, xml@) is None,
        },
{
    let mut o = String::new();
    push_char(&mut o, '<');
    o.append(tag);
    push_char(&mut o, '>');
    let mut c = String::new();
    push_char(&mut c, '<');
    push_char(&mut c, '/');
    c.append(tag);
    push_char(&mut c, '>');
    proof {
        assert(o@ =~= tag_open(tag@));
        assert(c@ =~= tag_close(tag@));
    }
    find_delimited(xml, o.as_str(), c.as_str(), '<')
}

/// Identifier and description read from an item's metadata document.
#[derive(Debug)]
pub struct AOMetadata {
    /// The item's identifier.
    pub identifier: String,
    /// The item's description, rendered as markdown.
    pub description: String,
}

impl AOMetadata {
    /// Reads identifier and description out of a metadata document; the
    /// description is entity-decoded, trimmed and rendered as markdown.
    /// `None` when either field is missing.
    pub fn new(content: &str) -> (r: Option<AOMetadata>)
        ensures
            match r {
                Some(m) => {
                    &&& spec_tag_value("identifier"@, content@) == Some(m.identifier@)
                    &&& spec_tag_value("description"@, content@) is Some
                    &&& m.description@ == markdown_of(
                        spec_trim(entities_decoded(spec_tag_value("description"@, content@)->Some_0)),
                    )
                },
                None => spec_tag_value("identifier"@, content@) is None || spec_tag_value(
                    "description"@,
                    content@,
                ) is None,
            },
    {
        let identifier = match tag_value("identifier", content) {
            Some(v) => v,
            None => { return None; },
        };
        let raw = match tag_value("description", content) {
            Some(v) => v,
            None => { return None; },
        };
        let decoded = decode_entities(raw.as_str());
        let trimmed = trim_exec(decoded.as_str());
        let description = html_to_markdown(trimmed.as_str());
        Some(AOMetadata { identifier, description })
    }
}

} // verus!
