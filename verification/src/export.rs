//! Framing of the card's PNG screenshot as an SVG document, so that the file
//! that a profile README embeds stays a `.svg`.

use vstd::prelude::*;
use vstd::string::*;
use base64::Engine;

use crate::text::{decimal, push_char, push_decimal};

verus! {

/// Why a screenshot could not be framed.
#[derive(Clone, Copy, Debug, PartialEq, Eq, Structural)]
pub enum PngError {
    /// The bytes are shorter than a PNG header or do not start with the PNG signature.
    NotPng,
}

/// The eight bytes that open every PNG file.
pub open spec fn png_signature() -> Seq<u8> {
    seq![0x89u8, 0x50u8, 0x4eu8, 0x47u8, 0x0du8, 0x0au8, 0x1au8, 0x0au8]
}

/// Whether `bytes` can hold a PNG header: the signature followed by enough bytes
/// to reach the image size in the IHDR chunk.
pub open spec fn is_png_header(bytes: Seq<u8>) -> bool {
    bytes.len() >= 24 && bytes.subrange(0, 8) == png_signature()
}

/// The big-endian number that the four bytes from `at` hold.
pub open spec fn be_u32_at(bytes: Seq<u8>, at: int) -> int {
    bytes[at] * 0x1000000 + bytes[at + 1] * 0x10000 + bytes[at + 2] * 0x100 + bytes[at + 3]
}

/// The image width of a PNG header (bytes 16..20).
pub open spec fn png_width(bytes: Seq<u8>) -> int {
    be_u32_at(bytes, 16)
}

/// The image height of a PNG header (bytes 20..24).
pub open spec fn png_height(bytes: Seq<u8>) -> int {
    be_u32_at(bytes, 20)
}

/// The character of a six-bit value (0..64) in the standard base64 alphabet:
/// `A-Z`, `a-z`, `0-9`, `+`, `/`.
pub open spec fn base64_char(v: int) -> char {
    if v < 26 {
        (65 + v) as char
    } else if v < 52 {
        (97 + v - 26) as char
    } else if v < 62 {
        (48 + v - 52) as char
    } else if v == 62 {
        '+'
    } else {
        '/'
    }
}

/// Standard base64 with padding: each group of three bytes becomes four
/// characters of six bits each, most significant first; a last group of one or
/// two bytes is filled with zero bits and padded with `=` to four characters.
pub open spec fn base64_standard(bytes: Seq<u8>) -> Seq<char>
    decreases bytes.len(),
{
    if bytes.len() == 0 {
        Seq::empty()
    } else if bytes.len() == 1 {
        let b0 = bytes[0] as int;
        seq![base64_char(b0 / 4), base64_char((b0 % 4) * 16), '=', '=']
    } else if bytes.len() == 2 {
        let b0 = bytes[0] as int;
        let b1 = bytes[1] as int;
        seq![
            base64_char(b0 / 4),
            base64_char((b0 % 4) * 16 + b1 / 16),
            base64_char((b1 % 16) * 4),
            '=',
        ]
    } else {
        let b0 = bytes[0] as int;
        let b1 = bytes[1] as int;
        let b2 = bytes[2] as int;
        seq![
            base64_char(b0 / 4),
            base64_char((b0 % 4) * 16 + b1 / 16),
            base64_char((b1 % 16) * 4 + b2 / 64),
            base64_char(b2 % 64),
        ] + base64_standard(bytes.skip(3))
    }
}

/// The SVG document that shows a `width` by `height` PNG, given as base64 text,
/// at its own size.
pub open spec fn svg_text(width: nat, height: nat, encoded: Seq<char>) -> Seq<char> {
    svg_head(width, height) + encoded + svg_tail(width, height)
}

/// The SVG document up to the image's base64 text, which follows the data URL's
/// `data:image/png;base64,`.
pub open spec fn svg_head(width: nat, height: nat) -> Seq<char> {
    let w = decimal(width);
    let h = decimal(height);
    r#"<svg xmlns="http://www.w3.org/2000/svg" xmlns:xlink="http://www.w3.org/1999/xlink" width=""#@
        + w + r#"" height=""#@ + h + r#"" viewBox="0 0 "#@ + w + " "@ + h
        + r#""><foreignObject width="100%" height="100%"><img xmlns="http://www.w3.org/1999/xhtml" src=""#@
        + data_url_prefix()
}

/// The start of the image's data URL.
pub open spec fn data_url_prefix() -> Seq<char> {
    "data:image/png;base64,"@
}

/// The SVG document after the image's base64 text: the `"` that closes the data
/// URL, then the image's size and the closing tags.
pub open spec fn svg_tail(width: nat, height: nat) -> Seq<char> {
    let w = decimal(width);
    let h = decimal(height);
    seq!['"'] + r#" width=""#@ + w + r#"" height=""#@ + h + r#""/></foreignObject></svg>"#@
}

/// Reads width and height out of a PNG's IHDR chunk (bytes 16..24).
pub fn png_dimensions(png: &[u8]) -> (dims: Result<(u32, u32), PngError>)
    ensures
        dims is Ok <==> is_png_header(png@),
        dims matches Ok((width, height)) ==> width == png_width(png@) && height == png_height(
            png@,
        ),
        dims matches Err(e) ==> e == PngError::NotPng,
{
    if png.len() < 24 {
        return Err(PngError::NotPng);
    }
    let signature: [u8; 8] = [0x89, 0x50, 0x4e, 0x47, 0x0d, 0x0a, 0x1a, 0x0a];
    let mut k: usize = 0;
    while k < 8
        invariant
            k <= 8,
            png@.len() >= 24,
            signature@ == png_signature(),
            forall|j: int| 0 <= j < k ==> png@[j] == signature@[j],
        decreases 8 - k,
    {
        if png[k] != signature[k] {
            assert(png@.subrange(0, 8)[k as int] != png_signature()[k as int]);
            return Err(PngError::NotPng);
        }
        k = k + 1;
    }
    assert(png@.subrange(0, 8) =~= png_signature());
    let width: u32 = (png[16] as u32) * 0x1000000 + (png[17] as u32) * 0x10000 + (png[18] as u32)
        * 0x100 + (png[19] as u32);
    let height: u32 = (png[20] as u32) * 0x1000000 + (png[21] as u32) * 0x10000 + (png[22] as u32)
        * 0x100 + (png[23] as u32);
    Ok((width, height))
}

/// The SVG document around a PNG of the given size whose base64 text is `encoded`.
pub fn svg_document(width: u32, height: u32, encoded: &str) -> (svg: String)
    ensures
        svg@ == svg_text(width as nat, height as nat, encoded@),
{
    let mut svg = String::new();
    svg.append(
        r#"<svg xmlns="http://www.w3.org/2000/svg" xmlns:xlink="http://www.w3.org/1999/xlink" width=""#,
    );
    push_decimal(&mut svg, width as u64);
    svg.append(r#"" height=""#);
    push_decimal(&mut svg, height as u64);
    svg.append(r#"" viewBox="0 0 "#);
    push_decimal(&mut svg, width as u64);
    svg.append(" ");
    push_decimal(&mut svg, height as u64);
    svg.append(
        r#""><foreignObject width="100%" height="100%"><img xmlns="http://www.w3.org/1999/xhtml" src=""#,
    );
    svg.append("data:image/png;base64,");
    svg.append(encoded);
    push_char(&mut svg, '"');
    svg.append(r#" width=""#);
    push_decimal(&mut svg, width as u64);
    svg.append(r#"" height=""#);
    push_decimal(&mut svg, height as u64);
    svg.append(r#""/></foreignObject></svg>"#);
    assert(svg@ =~= svg_text(width as nat, height as nat, encoded@));
    svg
}

/// Frames a PNG screenshot as an SVG document of the same size, the image
/// embedded as a base64 data URL.
pub fn png_to_svg(png: &[u8]) -> (svg: Result<String, PngError>)
    ensures
        svg is Ok <==> is_png_header(png@),
        svg matches Ok(text) ==> text@ == svg_text(
            png_width(png@) as nat,
            png_height(png@) as nat,
            base64_standard(png@),
        ),
        svg matches Err(e) ==> e == PngError::NotPng,
{
    let (width, height) = match png_dimensions(png) {
        Ok(dims) => dims,
        Err(e) => return Err(e),
    };
    let encoded = encode_base64(png);
    Ok(svg_document(width, height, encoded.as_str()))
}

/// The `base64` crate's `STANDARD.encode`: the standard alphabet, with padding.
#[verifier::external_body]
fn encode_base64(bytes: &[u8]) -> (encoded: String)
    ensures
        encoded@ == base64_standard(bytes@),
{
    base64::engine::general_purpose::STANDARD.encode(bytes)
}

} // verus!
