//! What kind of document a buffer holds, judged by its first bytes alone:
//! the name under which it was uploaded and the type its sender declared
//! are not looked at.

use mime_sniffer::MimeTypeSniffer;
use vstd::prelude::*;

use crate::text::{begins_with, same_text, stands_at, to_chars};

verus! {

/// The kinds of content the library tells apart.
#[derive(Clone, Copy, Debug, PartialEq, Eq, Structural)]
pub enum ContentKind {
    /// A PDF document: the one kind that is accepted for extraction.
    Pdf,
    /// An image of any format.
    Image,
    /// Content of another recognised type.
    Other,
    /// Content whose first bytes match no known signature.
    Unknown,
}

/// The media type that `mime_sniffer` finds in `content`, if it finds one.
pub uninterp spec fn sniffed_type(content: Seq<u8>) -> Option<Seq<char>>;

/// The essence (type, slash, subtype, in lower case) that `mime` reads out
/// of `media_type`, if it accepts the text as a media type.
pub uninterp spec fn essence_of(media_type: Seq<char>) -> Option<Seq<char>>;

/// The text in `found`, if there is one.
pub open spec fn text_of(found: Option<String>) -> Option<Seq<char>> {
    match found {
        Some(text) => Some(text@),
        None => None,
    }
}

/// Calls `MimeTypeSniffer::sniff_mime_type` of `mime_sniffer` on the bytes
/// of `content`. The crate compares the first bytes with two fixed tables of
/// signatures and hands out the media type of the first entry that matches,
/// so the result depends on the bytes alone; the contract gives it its name
/// and claims nothing more.
#[verifier::external_body]
fn sniff_type(content: &Vec<u8>) -> (found: Option<String>)
    ensures
        text_of(found) == sniffed_type(content@),
{
    match content.sniff_mime_type() {
        Some(name) => Some(name.to_string()),
        None => None,
    }
}

/// Parses `media_type` with `mime::Mime::from_str` and hands out
/// `Mime::essence_str` of what was parsed, or nothing where the crate
/// rejects the text. Both depend on the text alone; the contract gives the
/// result its name and claims nothing more.
#[verifier::external_body]
fn read_essence(media_type: &str) -> (essence: Option<String>)
    ensures
        text_of(essence) == essence_of(media_type@),
{
    match media_type.parse::<mime::Mime>() {
        Ok(parsed) => Some(parsed.essence_str().to_string()),
        Err(_) => None,
    }
}

/// The kind of content with the given essence: PDF for `application/pdf`,
/// an image for every subtype of `image`, another kind otherwise.
pub open spec fn kind_of_essence(essence: Seq<char>) -> ContentKind {
    if essence == "application/pdf"@ {
        ContentKind::Pdf
    } else if begins_with(essence, "image/"@) {
        ContentKind::Image
    } else {
        ContentKind::Other
    }
}

/// The kind of content that was sniffed as `sniffed`: unknown where no
/// signature matched, another kind where the media type cannot be read.
pub open spec fn kind_of_sniffed(sniffed: Option<Seq<char>>) -> ContentKind {
    match sniffed {
        None => ContentKind::Unknown,
        Some(media_type) => match essence_of(media_type) {
            None => ContentKind::Other,
            Some(essence) => kind_of_essence(essence),
        },
    }
}

/// The kind of content in `content`.
pub open spec fn kind_of(content: Seq<u8>) -> ContentKind {
    kind_of_sniffed(sniffed_type(content))
}

/// The kind of content with the given essence.
pub fn classify(essence: &str) -> (kind: ContentKind)
    ensures
        kind == kind_of_essence(essence@),
{
    let chars = to_chars(essence);
    let pdf = to_chars("application/pdf");
    let image = to_chars("image/");
    if same_text(&chars, &pdf) {
        ContentKind::Pdf
    } else if stands_at(&chars, &image, 0) {
        ContentKind::Image
    } else {
        ContentKind::Other
    }
}

/// The kind of content that goes by the media type `media_type`.
pub fn media_kind(media_type: &str) -> (kind: ContentKind)
    ensures
        kind == kind_of_sniffed(Some(media_type@)),
{
    match read_essence(media_type) {
        None => ContentKind::Other,
        Some(essence) => classify(essence.as_str()),
    }
}

/// The kind of content in `content`.
pub fn sniff_kind(content: &Vec<u8>) -> (kind: ContentKind)
    ensures
        kind == kind_of(content@),
{
    match sniff_type(content) {
        None => ContentKind::Unknown,
        Some(media_type) => media_kind(media_type.as_str()),
    }
}

/// Whether content of `kind` is accepted for extraction.
pub fn is_accepted(kind: ContentKind) -> (yes: bool)
    ensures
        yes == (kind == ContentKind::Pdf),
{
    match kind {
        ContentKind::Pdf => true,
        _ => false,
    }
}

} // verus!
