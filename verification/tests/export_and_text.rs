use base64::Engine;
use profile_svg::export::{png_dimensions, png_to_svg, svg_document, PngError};
use profile_svg::text::decimal_text;

fn header(width: u32, height: u32) -> Vec<u8> {
    let mut bytes = vec![0x89, 0x50, 0x4e, 0x47, 0x0d, 0x0a, 0x1a, 0x0a, 0, 0, 0, 13];
    bytes.extend_from_slice(b"IHDR");
    bytes.extend_from_slice(&width.to_be_bytes());
    bytes.extend_from_slice(&height.to_be_bytes());
    bytes
}

#[test]
fn png_dimensions_reads_ihdr_size() {
    let mut png = header(800, 300);
    png.extend_from_slice(&[8, 6, 0, 0, 0]);
    assert_eq!(png_dimensions(&png), Ok((800, 300)));
}

#[test]
fn png_dimensions_big_endian_extremes() {
    assert_eq!(png_dimensions(&header(u32::MAX, 1)), Ok((u32::MAX, 1)));
    assert_eq!(png_dimensions(&header(0x01020304, 0)), Ok((16909060, 0)));
}

#[test]
fn png_dimensions_rejects_short_input() {
    let png = header(800, 300);
    assert_eq!(png_dimensions(&png[..23]), Err(PngError::NotPng));
    assert_eq!(png_dimensions(&[]), Err(PngError::NotPng));
}

#[test]
fn png_dimensions_rejects_wrong_signature() {
    let mut png = header(800, 300);
    png[1] = b'p';
    assert_eq!(png_dimensions(&png), Err(PngError::NotPng));
    let mut jpeg = vec![0xffu8; 24];
    jpeg[0] = 0xff;
    assert_eq!(png_dimensions(&jpeg), Err(PngError::NotPng));
}

#[test]
fn svg_document_exact_text() {
    let svg = svg_document(800, 300, "QUJD");
    assert_eq!(
        svg,
        r#"<svg xmlns="http://www.w3.org/2000/svg" xmlns:xlink="http://www.w3.org/1999/xlink" width="800" height="300" viewBox="0 0 800 300"><foreignObject width="100%" height="100%"><img xmlns="http://www.w3.org/1999/xhtml" src="data:image/png;base64,QUJD" width="800" height="300"/></foreignObject></svg>"#
    );
}

#[test]
fn png_to_svg_embeds_base64_at_own_size() {
    let mut png = header(800, 300);
    png.extend_from_slice(&[8, 6, 0, 0, 0]);
    let svg = png_to_svg(&png).unwrap();
    assert_eq!(
        svg,
        r#"<svg xmlns="http://www.w3.org/2000/svg" xmlns:xlink="http://www.w3.org/1999/xlink" width="800" height="300" viewBox="0 0 800 300"><foreignObject width="100%" height="100%"><img xmlns="http://www.w3.org/1999/xhtml" src="data:image/png;base64,iVBORw0KGgoAAAANSUhEUgAAAyAAAAEsCAYAAAA=" width="800" height="300"/></foreignObject></svg>"#
    );
}

#[test]
fn png_to_svg_refuses_non_png() {
    assert_eq!(png_to_svg(b"GIF89a.................."), Err(PngError::NotPng));
}

#[test]
fn decimal_text_numerals() {
    assert_eq!(decimal_text(0), "0");
    assert_eq!(decimal_text(7), "7");
    assert_eq!(decimal_text(10), "10");
    assert_eq!(decimal_text(4294967295), "4294967295");
    assert_eq!(decimal_text(u64::MAX), "18446744073709551615");
}

#[test]
fn svg_base64_text_decodes_to_the_png() {
    let mut png = header(640, 480);
    png.extend_from_slice(&[1, 2, 3, 250, 251, 252, 253]);
    for cut in [24, 25, 26, 27, png.len()] {
        let bytes = &png[..cut];
        let svg = png_to_svg(bytes).unwrap();
        let start = svg.find("data:image/png;base64,").unwrap() + "data:image/png;base64,".len();
        let end = start + svg[start..].find('"').unwrap();
        let decoded = base64::engine::general_purpose::STANDARD.decode(&svg[start..end]).unwrap();
        assert_eq!(decoded, bytes);
        assert!(svg.contains("width=\"640\" height=\"480\"/>"));
    }
}
