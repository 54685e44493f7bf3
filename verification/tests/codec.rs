use fontcache::CharInfo;
use fontcache::DecodingError;
use fontcache::MetaDecodeError;
use fontcache::RenderedFont;
use fontcache::decode_metadata;
use fontcache::encode_atlas;
use fontcache::encode_metadata;
use fontcache::load_atlas;

fn ci(advance: (u32, u32), pixel_offset: (u32, u32)) -> CharInfo {
    CharInfo { advance, pixel_offset }
}

fn meta_font() -> RenderedFont<()> {
    RenderedFont::new(
        "emoji & ünïcode\nname".to_string(),
        14,
        (),
        22,
        18,
        vec![('A', ci((10, 0), (1, 2))), ('€', ci((12, 1), (0, 3)))],
        vec![(('A', '€'), (-2, 0)), (('€', 'A'), (3, -1))],
    )
}

#[test]
fn metadata_round_trip_preserves_every_field() {
    let font = meta_font();
    let text = encode_metadata(&font);
    let back = decode_metadata(&text).unwrap();
    assert_eq!(back.name(), "emoji & ünïcode\nname");
    assert_eq!(back.size(), 14);
    assert_eq!(back.line_height(), 22);
    assert_eq!(back.max_width(), 18);
    assert_eq!(back.char_info('A').unwrap(), ci((10, 0), (1, 2)));
    assert_eq!(back.char_info('€').unwrap(), ci((12, 1), (0, 3)));
    assert!(back.char_info('B').is_none());
    assert_eq!(back.kerning('A', '€'), (-2, 0));
    assert_eq!(back.kerning('€', 'A'), (3, -1));
    assert_eq!(back.kerning('A', 'A'), (0, 0));
}

#[test]
fn metadata_encoding_of_minimal_font_is_exact() {
    let font = RenderedFont::new(String::new(), 1, (), 2, 3, vec![], vec![]);
    let text = encode_metadata(&font);
    let expected = [
        "0000000000000000",
        "0000000000000001",
        "0000000000000002",
        "0000000000000003",
        "0000000000000000",
        "0000000000000000",
    ]
    .join("");
    assert_eq!(text, expected);
}

#[test]
fn metadata_encoding_biases_negative_kerning() {
    let font = RenderedFont::new(String::new(), 0, (), 0, 0, vec![], vec![(('a', 'b'), (-2, 1))]);
    let text = encode_metadata(&font);
    let entries = &text[16 * 5..];
    assert_eq!(entries, "0000000000000001ab000000007ffffffe0000000080000001");
}

#[test]
fn decode_rejects_malformed_text() {
    assert!(matches!(decode_metadata("not a record"), Err(MetaDecodeError::Malformed)));
    assert!(matches!(decode_metadata(""), Err(MetaDecodeError::Malformed)));
    // A valid encoding with one character chopped off is rejected too.
    let text = encode_metadata(&meta_font());
    let mut chopped: Vec<char> = text.chars().collect();
    chopped.pop();
    let chopped: String = chopped.into_iter().collect();
    assert!(decode_metadata(&chopped).is_err());
    // So is one with trailing garbage.
    let padded = format!("{}x", text);
    assert!(decode_metadata(&padded).is_err());
}

fn sample_image() -> image::DynamicImage {
    let pixels = image::RgbaImage::from_fn(3, 2, |x, y| {
        image::Rgba([x as u8 * 40, y as u8 * 90, 7, 255])
    });
    image::DynamicImage::ImageRgba8(pixels)
}

#[test]
fn atlas_round_trip_preserves_metadata_and_pixels() {
    let font = meta_font().map_img(|_| sample_image());
    let (image_bytes, metadata_text) = encode_atlas(font, image::ImageFormat::Png).unwrap();
    let back = load_atlas(&image_bytes, &metadata_text).unwrap();
    assert_eq!(back.name(), "emoji & ünïcode\nname");
    assert_eq!(back.size(), 14);
    assert_eq!(back.line_height(), 22);
    assert_eq!(back.max_width(), 18);
    assert_eq!(back.char_info('€').unwrap(), ci((12, 1), (0, 3)));
    assert_eq!(back.kerning('€', 'A'), (3, -1));
    // PNG is lossless, so the pixels survive exactly.
    assert_eq!(back.image().to_rgba8(), sample_image().to_rgba8());
}

#[test]
fn load_atlas_rejects_bad_image_bytes() {
    let metadata_text = encode_metadata(&meta_font());
    let result = load_atlas(b"definitely not an image", &metadata_text);
    assert!(matches!(result, Err(DecodingError::ImageDecodingError(_))));
}

#[test]
fn load_atlas_rejects_bad_metadata() {
    let font = meta_font().map_img(|_| sample_image());
    let (image_bytes, _) = encode_atlas(font, image::ImageFormat::Png).unwrap();
    let result = load_atlas(&image_bytes, "garbage");
    assert!(matches!(
        result,
        Err(DecodingError::MetadataDecodingError(MetaDecodeError::Malformed))
    ));
}
