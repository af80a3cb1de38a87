use artparser::decompress;
use artparser::lzunpack::{DecodeError, MRUList};

/// A declared length of zero ends decoding at once: the result is
/// empty and no bit of the arithmetic stream is consumed.
#[test]
fn empty_declared_length() {
    let input = [0x00u8, 0x00, 0x00, 0x00, 0x00];
    let out = decompress(&input).expect("empty stream must decode");
    assert_eq!(out.len(), 0);
}

/// Even without the padding byte, a zero declared length decodes to
/// an empty output, since nothing past the length field is read.
#[test]
fn empty_declared_length_short() {
    let input = [0x00u8, 0x00, 0x00, 0x00];
    let out = decompress(&input).expect("empty stream must decode");
    assert_eq!(out.len(), 0);
}

/// An all-zero arithmetic stream decodes every symbol as the literal
/// zero, so the output is exactly the declared number of zero bytes.
#[test]
fn all_zero_stream_length_fidelity() {
    let mut input = vec![0x08u8, 0x00, 0x00, 0x00];
    input.push(0x00); // padding
    input.extend(std::iter::repeat(0x00u8).take(104));
    let out = decompress(&input).expect("zero stream must decode");
    assert_eq!(out, vec![0u8; 8]);
}

/// A header shorter than the length field plus padding is refused.
#[test]
fn truncated_header() {
    let input = [0x05u8, 0x00, 0x00, 0x00];
    assert_eq!(decompress(&input), Err(DecodeError::TruncatedInput));
}

/// A nonzero declared length with no arithmetic stream at all is
/// refused.
#[test]
fn truncated_stream() {
    let input = [0x01u8, 0x00, 0x00, 0x00, 0x00];
    assert_eq!(decompress(&input), Err(DecodeError::TruncatedInput));
}

/// A stream whose first symbol reuses a match distance while the
/// output is still empty is refused.
#[test]
fn referencing_empty() {
    let input = [0x01u8, 0x00, 0x00, 0x00, 0x00, 0xFF, 0xFF, 0xFF, 0xFF];
    assert_eq!(decompress(&input), Err(DecodeError::ReferencingEmpty));
}

/// A stream whose first symbol fetches a fresh distance while the
/// output is still empty is refused as a negative distance.
#[test]
fn negative_distance_on_empty_output() {
    let input = [0x01u8, 0x00, 0x00, 0x00, 0x00, 0x80, 0x00, 0x00, 0x00, 0x00, 0x00];
    assert_eq!(decompress(&input), Err(DecodeError::NegativeDistance));
}

/// A copy that would run past the declared output length is refused.
#[test]
fn output_too_big() {
    let input = [
        0x02u8, 0x00, 0x00, 0x00, // two bytes declared
        0x00, // padding
        0x00, 0x40, 0x00, 0x00, // initial value: one literal, then a copy of two
        0x00, 0x00, 0x00,
    ];
    assert_eq!(decompress(&input), Err(DecodeError::OutputTooBig));
}

/// A stream with two literals, a fresh-distance copy of four bytes at
/// distance one (self-overlapping, so the pair alternates), a literal
/// decoded against its reference byte, and a single-byte copy of the
/// most recent distance.  The output reaches the declared length
/// exactly.
#[test]
fn literals_copy_and_trivial_copy() {
    let input = [
        0x08u8, 0x00, 0x00, 0x00, // eight bytes declared
        0x00, // padding
        0x20, 0x90, 0x9E, 0x04, 0x87, 0x84, 0x00, 0x00, 0x00, 0x00, 0x00, 0x00, 0x00, 0x00,
        0x00, 0x00, 0x00,
    ];
    let out = decompress(&input).expect("stream must decode");
    assert_eq!(out, b"ABABABCB".to_vec());
}

/// A stream that reuses the initial most-recent distance of zero with
/// a copy length: the last byte repeats until the declared length is
/// reached.
#[test]
fn reused_distance_copy() {
    let input = [
        0x04u8, 0x00, 0x00, 0x00, // four bytes declared
        0x00, // padding
        0x20, 0xE8, 0x7C, 0x00, 0x00, 0x00, 0x00, 0x00, 0x00, 0x00, 0x00, 0x00, 0x00,
    ];
    let out = decompress(&input).expect("stream must decode");
    assert_eq!(out, b"AAAA".to_vec());
}

/// A stream whose distance coder yields the all-ones sentinel stops
/// at once: one literal was emitted, and although four bytes were
/// declared, decoding ends successfully with no further output.
#[test]
fn distance_sentinel_stops_decoding() {
    let input = [
        0x04u8, 0x00, 0x00, 0x00, // four bytes declared
        0x00, // padding
        0x00, 0x41, 0xFE, 0xF7, 0xFF, 0xFF, 0xE0, 0x00, 0x80, 0x00, 0x00, 0x00, 0x00, 0x00,
        0x00, 0x00, 0x00, 0x00,
    ];
    let out = decompress(&input).expect("sentinel must end decoding successfully");
    assert_eq!(out, vec![0u8]);
}

/// Pushing a value and recalling slot zero returns that value and
/// leaves the list unchanged.
#[test]
fn mru_push_then_recall_zero() {
    let mut m = MRUList::new(4);
    m.add_value(7);
    assert_eq!(m.mru(), 7);
    assert_eq!(m.pick_recently_used(0), 7);
    assert_eq!(m.mru(), 7);
}

/// Recalling slot 2 of [a,b,c,d] yields c and leaves [c,a,b,d]: the
/// recalled value moves to the front, the entries before it shift
/// down, the entry after it stays.
#[test]
fn mru_recall_two() {
    let mut m = MRUList::new(4);
    m.add_value(40); // d
    m.add_value(30); // c
    m.add_value(20); // b
    m.add_value(10); // a -> [10, 20, 30, 40]
    assert_eq!(m.pick_recently_used(2), 30); // -> [30, 10, 20, 40]
    assert_eq!(m.mru(), 30);
    // probe the remaining order by further recalls
    assert_eq!(m.pick_recently_used(1), 10); // -> [10, 30, 20, 40]
    assert_eq!(m.pick_recently_used(2), 20); // -> [20, 10, 30, 40]
    assert_eq!(m.pick_recently_used(3), 40); // -> [40, 20, 10, 30]
}

/// Pushing shifts every entry down and drops the oldest.
#[test]
fn mru_push_shifts() {
    let mut m = MRUList::new(4);
    m.add_value(1);
    m.add_value(2);
    m.add_value(3);
    m.add_value(4);
    m.add_value(5); // -> [5, 4, 3, 2]
    assert_eq!(m.pick_recently_used(3), 2);
}
