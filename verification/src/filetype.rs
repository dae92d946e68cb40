//! Classifying a file by the signature at the start of its content.

use crate::text::{first_segment, leading_segment};
use vstd::prelude::*;
use vstd::slice::slice_subrange;

verus! {

/// How many bytes from the start of a file are shown to the signature
/// detector.
pub const SNIFF_LEN: usize = 8192;

/// The media type that the signature detector reports for a buffer, or
/// `None` where no signature that it knows matches.
pub uninterp spec fn detected_mime(buf: Seq<u8>) -> Option<Seq<char>>;

/// The category of content in which the detector finds no signature.
pub open spec fn text_category() -> Seq<char> {
    "text"@
}

/// Whether `name` is one of the five categories of content.
pub open spec fn is_category(name: Seq<char>) -> bool {
    name == "application"@ || name == "audio"@ || name == "image"@ || name == "text"@ || name
        == "video"@
}

/// The category for a detector's answer: the part of the media type before
/// its first separator, and text where the detector knows no signature.
pub open spec fn category(mime: Option<Seq<char>>) -> Seq<char> {
    match mime {
        Some(m) => leading_segment(m),
        None => text_category(),
    }
}

/// The part of a file's content that the detector is shown.
pub open spec fn sniffed(content: Seq<u8>) -> Seq<u8> {
    if content.len() > SNIFF_LEN {
        content.take(SNIFF_LEN as int)
    } else {
        content
    }
}

/// The category of a file with this content.
pub open spec fn file_category(content: Seq<u8>) -> Seq<char> {
    category(detected_mime(sniffed(content)))
}

/// Calls `infer::get` and, where it finds a type, `infer::Type::mime_type`.
///
/// Not proved, but taken from the source of `infer`:
/// - The result is the media type of the first entry of the crate's
///   signature table whose matcher accepts `buf`, and `None` where no
///   matcher does. The table is fixed and the matchers read nothing but the
///   buffer, so the result depends on the bytes alone.
/// - Every media type in the table begins with `application/`, `audio/`,
///   `image/`, `text/` or `video/`.
/// - The matchers check lengths before they index. Some add a 32-bit length
///   read from the buffer to a `usize` offset; those sums fit where `usize`
///   has 64 bits, hence the `requires`.
#[verifier::external_body]
fn detect(buf: &[u8]) -> (mime: Option<&'static str>)
    requires
        usize::BITS == 64,
    ensures
        detected_mime(buf@) == match mime {
            Some(m) => Some(m@),
            None => None,
        },
        mime matches Some(m) ==> is_category(leading_segment(m@)),
{
    match infer::get(buf) {
        Some(kind) => Some(kind.mime_type()),
        None => None,
    }
}

/// The category for what the detector answered.
pub fn category_of(mime: Option<&str>) -> (name: String)
    ensures
        name@ == category(
            match mime {
                Some(m) => Some(m@),
                None => None,
            },
        ),
{
    match mime {
        Some(m) => first_segment(m),
        None => String::from_str("text"),
    }
}

/// The category of a file with this content: `application`, `audio`,
/// `image`, `video` or `text` for what the detector knows, and `text` for
/// content without a known signature.
///
/// The detector's arithmetic is only known to fit in machine words of 64
/// bits, so the function asks for them.
pub fn getfiletype(content: &[u8]) -> (name: String)
    requires
        usize::BITS == 64,
    ensures
        name@ == file_category(content@),
        is_category(name@),
{
    let head = if content.len() > SNIFF_LEN {
        slice_subrange(content, 0, SNIFF_LEN)
    } else {
        content
    };
    assert(head@ == sniffed(content@));
    category_of(detect(head))
}

/// Whether `name` is the text category.
pub fn is_text(name: &str) -> (yes: bool)
    ensures
        yes == (name@ == text_category()),
{
    proof {
        reveal_strlit("text");
    }
    if name.unicode_len() != 4 {
        return false;
    }
    let yes = name.get_char(0) == 't' && name.get_char(1) == 'e' && name.get_char(2) == 'x'
        && name.get_char(3) == 't';
    assert(yes ==> name@ =~= text_category());
    yes
}

} // verus!
