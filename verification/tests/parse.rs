use artparser::art::{Action, ArtError, RGB};
use artparser::parser::{
    read_action, read_compressed, read_image, read_layer_info, read_str, read_u32,
};
use artparser::ArtFile;

fn le32(v: u32) -> Vec<u8> {
    vec![v as u8, (v >> 8) as u8, (v >> 16) as u8, (v >> 24) as u8]
}

/// A minimal version-zero file: magic, version, eight discarded
/// bytes, and a payload whose all-zero arithmetic stream expands to
/// the 158-byte all-zero body.  Everything parses to its empty or
/// zero value.
#[test]
fn parse_minimal_v0_file() {
    let mut payload = le32(158);
    payload.push(0x00); // padding
    payload.extend(std::iter::repeat(0x00u8).take(300));

    let mut file: Vec<u8> = vec![0xC5, 0xB3, 0x8B, 0xE7];
    file.extend(le32(0)); // version word 0
    file.extend(std::iter::repeat(0x00u8).take(8));
    file.extend(le32(payload.len() as u32));
    file.extend(payload.iter().copied());

    let art = ArtFile::from_bytes(&file).expect("minimal file must parse");
    assert_eq!(art.version, 0);
    assert_eq!(art.active_layer, 0);
    assert_eq!(art.background_color, RGB { r: 0, g: 0, b: 0 });
    assert_eq!(f32::from_bits(art.background_alpha), 0.0);
    assert_eq!(art.view_matrix.len(), 16);
    assert_eq!(art.pins.len(), 0);
    assert_eq!(art.layer_order.len(), 0);
    assert_eq!(art.layers.len(), 0);
    assert_eq!(art.images.len(), 0);
    assert_eq!(art.actions.len(), 0);
}

/// A newest-revision file carries its pin table in the uncompressed
/// prefix; the parsed document keeps those pins beside the
/// decompressed body.
#[test]
fn parse_v82_file_with_pin() {
    let mut payload = le32(158);
    payload.push(0x00);
    payload.extend(std::iter::repeat(0x00u8).take(300));

    let mut file: Vec<u8> = vec![0xC5, 0xB3, 0x8B, 0xE9];
    file.extend(le32(0x82));
    file.extend(std::iter::repeat(0x00u8).take(0x21));
    file.extend(le32(1)); // one pin
    file.extend(std::iter::repeat(0x00u8).take(64)); // pin matrix
    file.extend(le32(4));
    file.extend([b'p', b'i', b'n', 0x00]);
    file.extend(le32(payload.len() as u32));
    file.extend(payload.iter().copied());

    let art = ArtFile::from_bytes(&file).expect("revision 0x82 file must parse");
    assert_eq!(art.pins.len(), 1);
    assert_eq!(art.pins[0].name, "pin");
    assert_eq!(art.layers.len(), 0);
}

/// The middle revision discards a longer span and has no pins.
#[test]
fn compressed_prefix_v81() {
    let mut file: Vec<u8> = vec![0xC5, 0xB3, 0x8B, 0xE7];
    file.extend(le32(0x81));
    file.extend(std::iter::repeat(0x00u8).take(0x1C));
    file.extend(le32(2));
    file.extend([0xAB, 0xCD]);
    let (ver, pins, payload) = read_compressed(&file).expect("prefix must parse");
    assert_eq!(ver, 0x81);
    assert_eq!(pins.len(), 0);
    assert_eq!(payload, &[0xAB, 0xCD]);
}

/// A wrong magic word is refused with the word read little-endian.
#[test]
fn bad_magic() {
    let mut file: Vec<u8> = vec![0xC5, 0xB3, 0x8B, 0xEA];
    file.extend(le32(0));
    file.extend(std::iter::repeat(0x00u8).take(16));
    assert!(matches!(ArtFile::from_bytes(&file), Err(ArtError::BadMagic(0xEA8BB3C5))));
}

/// A version byte outside the three known revisions is refused.
#[test]
fn bad_version() {
    let mut file: Vec<u8> = vec![0xC5, 0xB3, 0x8B, 0xE7];
    file.extend(le32(0x05));
    file.extend(std::iter::repeat(0x00u8).take(16));
    assert!(matches!(ArtFile::from_bytes(&file), Err(ArtError::BadVersion(0x05))));
}

/// A pen colour action decodes to its layer and triplet; an unknown
/// tag is refused with that tag.
#[test]
fn action_pen_color_and_bad_tag() {
    let mut bytes = le32(3);
    bytes.extend(le32(0x35));
    bytes.extend([10u8, 20, 30]);
    let ((layer, action), end) = read_action(&bytes, 0).expect("pen colour must decode");
    assert_eq!(layer, 3);
    assert_eq!(end, 11);
    match action {
        Action::PenColor(c) => assert_eq!(c, RGB { r: 10, g: 20, b: 30 }),
        _ => panic!("wrong action variant"),
    }

    let mut bad = le32(3);
    bad.extend(le32(0x99));
    assert!(matches!(read_action(&bad, 0), Err(ArtError::BadAction(0x99))));
}

/// A two-point stroke: the first point arrives as raw f32 bits, the
/// second as a delta record whose bit 14 marks the x displacement
/// negative.  Accumulating per the format gives x = 1 - 32/32 = 0,
/// y = 2, and a pressure inside the unit interval.
#[test]
fn action_stroke_delta() {
    let mut bytes = le32(0); // layer
    bytes.extend(le32(0x01)); // stroke tag
    bytes.extend(le32(2)); // two points
    bytes.extend(le32(1.0f32.to_bits()));
    bytes.extend(le32(2.0f32.to_bits()));
    bytes.extend(le32(0.5f32.to_bits()));
    bytes.extend(le32(0x00004020)); // tmp: dx magnitude 0x20, bit 14 set
    bytes.push(0x00);
    let ((layer, action), end) = read_action(&bytes, 0).expect("stroke must decode");
    assert_eq!(layer, 0);
    assert_eq!(end, bytes.len());
    match action {
        Action::Stroke { first, deltas } => {
            let f = first.expect("first point present");
            assert_eq!(f32::from_bits(f.x), 1.0);
            assert_eq!(f32::from_bits(f.y), 2.0);
            assert_eq!(f32::from_bits(f.p), 0.5);
            assert_eq!(deltas.len(), 1);
            let d = deltas[0];
            assert_eq!(d.dx_mag, 0x20);
            assert!(d.dx_neg);
            assert_eq!(d.dy_mag, 0);
            assert!(!d.dy_neg);
            assert_eq!(d.p, 0);
            // accumulate as the drawing application would
            let sx = if d.dx_neg { -1.0f32 } else { 1.0 };
            let sy = if d.dy_neg { -1.0f32 } else { 1.0 };
            let x2 = f32::from_bits(f.x) + (d.dx_mag as f32) / 32.0 * sx;
            let y2 = f32::from_bits(f.y) + (d.dy_mag as f32) / 32.0 * sy;
            let p2 = (d.p as f32) / 1023.0;
            assert_eq!(x2, 0.0);
            assert_eq!(y2, 2.0);
            assert!((0.0..=1.0).contains(&p2));
        },
        _ => panic!("wrong action variant"),
    }
}

/// An empty stroke holds no points at all.
#[test]
fn action_stroke_empty() {
    let mut bytes = le32(9);
    bytes.extend(le32(0x01));
    bytes.extend(le32(0));
    let ((layer, action), end) = read_action(&bytes, 0).expect("empty stroke must decode");
    assert_eq!(layer, 9);
    assert_eq!(end, 12);
    match action {
        Action::Stroke { first, deltas } => {
            assert!(first.is_none());
            assert_eq!(deltas.len(), 0);
        },
        _ => panic!("wrong action variant"),
    }
}

/// Every remaining action tag decodes to its variant with the fields
/// at their documented offsets.
#[test]
fn action_tags_decode() {
    // pen transform: matrix of sixteen words, then zoom
    let mut bytes = le32(1);
    bytes.extend(le32(0x33));
    for i in 0..16u32 {
        bytes.extend(le32(i));
    }
    bytes.extend(le32(2.0f32.to_bits()));
    let ((_, action), end) = read_action(&bytes, 0).expect("pen transform must decode");
    match action {
        Action::PenTransform { matrix, zoom } => {
            assert_eq!(matrix.len(), 16);
            assert_eq!(matrix[5], 5);
            assert_eq!(f32::from_bits(zoom), 2.0);
        },
        _ => panic!("wrong action variant"),
    }
    assert_eq!(end, bytes.len());

    // pen properties: kind and five bit patterns
    let mut bytes = le32(0);
    bytes.extend(le32(0x34));
    bytes.extend(le32(9));
    for v in [1.0f32, 2.0, 3.0, 4.0, 5.0] {
        bytes.extend(le32(v.to_bits()));
    }
    let ((_, action), _) = read_action(&bytes, 0).expect("pen properties must decode");
    match action {
        Action::PenProperties(u) => {
            assert_eq!(u.kind, 9);
            assert_eq!(f32::from_bits(u.noise), 1.0);
            assert_eq!(f32::from_bits(u.opacity_min), 5.0);
        },
        _ => panic!("wrong action variant"),
    }

    // eraser toggle: any nonzero word is true
    let mut bytes = le32(0);
    bytes.extend(le32(0x36));
    bytes.extend(le32(2));
    let ((_, action), _) = read_action(&bytes, 0).expect("eraser must decode");
    assert!(matches!(action, Action::PenIsEraser(true)));

    // layer merge: source index, two opacities, matrix, zoom
    let mut bytes = le32(0);
    bytes.extend(le32(0x0C));
    bytes.extend(le32(4));
    bytes.extend(le32(0.25f32.to_bits()));
    bytes.extend(le32(0.75f32.to_bits()));
    for _ in 0..16 {
        bytes.extend(le32(0));
    }
    bytes.extend(le32(1.5f32.to_bits()));
    let ((_, action), end) = read_action(&bytes, 0).expect("merge must decode");
    match action {
        Action::LayerMerge { other, opacity_src, opacity_dst, matrix, zoom } => {
            assert_eq!(other, 4);
            assert_eq!(f32::from_bits(opacity_src), 0.25);
            assert_eq!(f32::from_bits(opacity_dst), 0.75);
            assert_eq!(matrix.len(), 16);
            assert_eq!(f32::from_bits(zoom), 1.5);
        },
        _ => panic!("wrong action variant"),
    }
    assert_eq!(end, bytes.len());

    // rectangle cut
    let mut bytes = le32(0);
    bytes.extend(le32(0x0E));
    for v in [1.0f32, 2.0, 3.0, 4.0] {
        bytes.extend(le32(v.to_bits()));
    }
    let ((_, action), _) = read_action(&bytes, 0).expect("cut must decode");
    match action {
        Action::CutRect { rect } => {
            assert_eq!(rect.len(), 4);
            assert_eq!(f32::from_bits(rect[3]), 4.0);
        },
        _ => panic!("wrong action variant"),
    }

    // layer paste: source, rectangle, two matrix and zoom pairs
    let mut bytes = le32(0);
    bytes.extend(le32(0x0F));
    bytes.extend(le32(2));
    for _ in 0..4 {
        bytes.extend(le32(0));
    }
    for _ in 0..16 {
        bytes.extend(le32(0));
    }
    bytes.extend(le32(1.0f32.to_bits()));
    for _ in 0..16 {
        bytes.extend(le32(0));
    }
    bytes.extend(le32(3.0f32.to_bits()));
    let ((_, action), end) = read_action(&bytes, 0).expect("paste must decode");
    match action {
        Action::PasteLayer(pp) => {
            assert_eq!(pp.from_layer, 2);
            assert_eq!(f32::from_bits(pp.zoom1), 1.0);
            assert_eq!(f32::from_bits(pp.zoom2), 3.0);
        },
        _ => panic!("wrong action variant"),
    }
    assert_eq!(end, bytes.len());

    // image draw: centre, size, unknown word, source size, image index
    let mut bytes = le32(0);
    bytes.extend(le32(0x07));
    bytes.extend(le32(1.0f32.to_bits()));
    bytes.extend(le32(2.0f32.to_bits()));
    bytes.extend(le32(3.0f32.to_bits()));
    bytes.extend(le32(4.0f32.to_bits()));
    bytes.extend(le32(0xAA));
    bytes.extend(le32(640));
    bytes.extend(le32(480));
    bytes.extend(le32(6));
    let ((_, action), _) = read_action(&bytes, 0).expect("draw must decode");
    match action {
        Action::DrawImage { dst_center, dst_size, _unknown, src_size, image_id } => {
            assert_eq!(f32::from_bits(dst_center[1]), 2.0);
            assert_eq!(f32::from_bits(dst_size[0]), 3.0);
            assert_eq!(_unknown, 0xAA);
            assert_eq!(src_size, vec![640, 480]);
            assert_eq!(image_id, 6);
        },
        _ => panic!("wrong action variant"),
    }

    // the two opaque payloads
    let mut bytes = le32(0);
    bytes.extend(le32(0x05));
    bytes.extend((0u8..20).collect::<Vec<u8>>());
    let ((_, action), _) = read_action(&bytes, 0).expect("opaque block must decode");
    match action {
        Action::_Unknown05(raw) => assert_eq!(raw, (0u8..20).collect::<Vec<u8>>()),
        _ => panic!("wrong action variant"),
    }

    let mut bytes = le32(0);
    bytes.extend(le32(0x08));
    bytes.extend(le32(0x1234));
    let ((_, action), _) = read_action(&bytes, 0).expect("opaque word must decode");
    assert!(matches!(action, Action::_Unknown08(0x1234)));

    // layer transform
    let mut bytes = le32(0);
    bytes.extend(le32(0x0D));
    for _ in 0..16 {
        bytes.extend(le32(0));
    }
    bytes.extend(le32(0.5f32.to_bits()));
    let ((_, action), _) = read_action(&bytes, 0).expect("layer transform must decode");
    match action {
        Action::LayerTransform { matrix, zoom } => {
            assert_eq!(matrix.len(), 16);
            assert_eq!(f32::from_bits(zoom), 0.5);
        },
        _ => panic!("wrong action variant"),
    }
}

/// An image keeps its kind word and its raw payload.
#[test]
fn image_payload() {
    let mut bytes = le32(7);
    bytes.extend(le32(3));
    bytes.extend([1u8, 2, 3]);
    let (img, end) = read_image(&bytes, 0).expect("image must decode");
    assert_eq!(img.kind, 7);
    assert_eq!(img.raw, vec![1, 2, 3]);
    assert_eq!(end, 11);
}

/// A layer name is a NUL-terminated UTF-8 prefix of its fixed field:
/// a two-byte encoding comes back as its single character.
#[test]
fn layer_name_utf8() {
    let mut bytes = le32(1); // visible
    bytes.extend(le32(0)); // opacity bits
    let mut name = vec![0xC3u8, 0xA9]; // a two-byte scalar
    name.extend(std::iter::repeat(0x00u8).take(254));
    bytes.extend(name);
    bytes.extend(le32(0)); // action count
    bytes.extend(std::iter::repeat(0x00u8).take(64)); // matrix
    bytes.extend(le32(0)); // zoom bits
    let (li, end) = read_layer_info(&bytes, 0).expect("layer must decode");
    assert!(li.visible);
    assert_eq!(li.name, "\u{e9}");
    assert_eq!(li.name.chars().count(), 1);
    assert_eq!(end, bytes.len());
}

/// An ill-formed byte in a layer name is refused as invalid UTF-8.
#[test]
fn layer_name_bad_utf8() {
    let mut bytes = le32(1);
    bytes.extend(le32(0));
    let mut name = vec![0xFFu8];
    name.extend(std::iter::repeat(0x00u8).take(255));
    bytes.extend(name);
    bytes.extend(le32(0));
    bytes.extend(std::iter::repeat(0x00u8).take(64));
    bytes.extend(le32(0));
    assert!(matches!(read_layer_info(&bytes, 0), Err(ArtError::Utf8)));
}

/// A pin name drops its trailing NUL and is whitespace-trimmed.
#[test]
fn pin_name_trimmed() {
    let mut bytes = le32(4);
    bytes.extend([b' ', b'x', b' ', 0x00]);
    let (name, end) = read_str(&bytes, 0).expect("name must decode");
    assert_eq!(name, "x");
    assert_eq!(end, 8);
}

/// A reader that runs out of bytes is refused.
#[test]
fn truncated_word() {
    let bytes = [0x01u8, 0x02];
    assert_eq!(read_u32(&bytes, 0), Err(ArtError::TruncatedInput));
}

/// The newest revision carries a pin table in the uncompressed
/// prefix.
#[test]
fn compressed_prefix_with_pin() {
    let mut file: Vec<u8> = vec![0xC5, 0xB3, 0x8B, 0xE9];
    file.extend(le32(0x82));
    file.extend(std::iter::repeat(0x00u8).take(0x21));
    file.extend(le32(1)); // one pin
    file.extend(std::iter::repeat(0x00u8).take(64)); // pin matrix
    file.extend(le32(3));
    file.extend([b' ', b'A', 0x00]); // name " A" plus trailing NUL
    file.extend(le32(0)); // empty payload
    let (ver, pins, payload) = read_compressed(&file).expect("prefix must parse");
    assert_eq!(ver, 0x82);
    assert_eq!(pins.len(), 1);
    assert_eq!(pins[0].name, "A");
    assert_eq!(pins[0].matrix.len(), 16);
    assert_eq!(payload.len(), 0);
}
