//! Mathematical model of the container grammar.
//!
//! Each function reads one element of the wire format from a byte
//! sequence at a cursor and yields the parsed value together with the
//! cursor after it, or the error the format assigns to that spot.
//! `parser` implements the same grammar in executable code and proves
//! each reader equal to its model.

use vstd::prelude::*;

verus! {

use crate::art::{
    ArtError, RGB, PenInfo, PenUpdate, StrokePoint, StrokeDelta, ArtPinV, LayerInfoV, ImageV,
    PastePropsV, ActionV, ArtFileV,
};
use crate::lzspec::{s_le32, s_decompress};
use vstd::utf8::{valid_utf8, decode_utf8};

/// What `str::trim` leaves of a string: both ends stripped of
/// whitespace.  Named here; the trusted wrapper in `parser` states
/// that the standard library computes it.
pub uninterp spec fn trim_of(s: Seq<char>) -> Seq<char>;

pub open spec fn sp_u8(s: Seq<u8>, p: int) -> Result<(u8, int), ArtError> {
    if 0 <= p && p + 1 <= s.len() {
        Ok((s[p], p + 1))
    } else {
        Err(ArtError::TruncatedInput)
    }
}

pub open spec fn sp_u32(s: Seq<u8>, p: int) -> Result<(u32, int), ArtError> {
    if 0 <= p && p + 4 <= s.len() {
        Ok((s_le32(s, p), p + 4))
    } else {
        Err(ArtError::TruncatedInput)
    }
}

pub open spec fn sp_rgb(s: Seq<u8>, p: int) -> Result<(RGB, int), ArtError> {
    if 0 <= p && p + 3 <= s.len() {
        Ok((RGB { r: s[p], g: s[p + 1], b: s[p + 2] }, p + 3))
    } else {
        Err(ArtError::TruncatedInput)
    }
}

/// Sixteen consecutive little-endian 32-bit words.
pub open spec fn sp_matrix(s: Seq<u8>, p: int) -> Result<(Seq<u32>, int), ArtError> {
    if 0 <= p && p + 64 <= s.len() {
        Ok((Seq::new(16, |i: int| s_le32(s, p + 4 * i)), p + 64))
    } else {
        Err(ArtError::TruncatedInput)
    }
}

/// Four consecutive little-endian 32-bit words.
pub open spec fn sp_rect(s: Seq<u8>, p: int) -> Result<(Seq<u32>, int), ArtError> {
    if 0 <= p && p + 16 <= s.len() {
        Ok((Seq::new(4, |i: int| s_le32(s, p + 4 * i)), p + 16))
    } else {
        Err(ArtError::TruncatedInput)
    }
}

/// The pen block: kind, colour, five f32 bit patterns, and the
/// eraser flag encoded as a nonzero word.
pub open spec fn sp_pen(s: Seq<u8>, p: int) -> Result<(PenInfo, int), ArtError> {
    if 0 <= p && p + 31 <= s.len() {
        Ok(
            (
                PenInfo {
                    kind: s_le32(s, p),
                    color: RGB { r: s[p + 4], g: s[p + 5], b: s[p + 6] },
                    noise: s_le32(s, p + 7),
                    size: s_le32(s, p + 11),
                    size_min: s_le32(s, p + 15),
                    opacity: s_le32(s, p + 19),
                    opacity_min: s_le32(s, p + 23),
                    is_eraser: s_le32(s, p + 27) != 0,
                },
                p + 31,
            ),
        )
    } else {
        Err(ArtError::TruncatedInput)
    }
}

/// A pin name: length-prefixed bytes whose final byte (a trailing
/// NUL) is dropped, decoded as UTF-8, then whitespace-trimmed.
pub open spec fn sp_pin_name(s: Seq<u8>, p: int) -> Result<(Seq<char>, int), ArtError> {
    match sp_u32(s, p) {
        Err(e) => Err(e),
        Ok((n, p1)) => {
            if p1 + n > s.len() {
                Err(ArtError::TruncatedInput)
            } else {
                let raw = s.subrange(p1, p1 + n);
                let body = if n == 0 {
                    raw
                } else {
                    raw.take(n - 1)
                };
                if valid_utf8(body) {
                    Ok((trim_of(decode_utf8(body)), p1 + n))
                } else {
                    Err(ArtError::Utf8)
                }
            }
        },
    }
}

/// A pin: a matrix of f32 bit patterns and a name.
pub open spec fn sp_pin(s: Seq<u8>, p: int) -> Result<(ArtPinV, int), ArtError> {
    match sp_matrix(s, p) {
        Err(e) => Err(e),
        Ok((m, p1)) => match sp_pin_name(s, p1) {
            Err(e) => Err(e),
            Ok((nm, p2)) => Ok((ArtPinV { matrix: m, name: nm }, p2)),
        },
    }
}

/// A count-prefixed pin table.
pub open spec fn sp_pins(s: Seq<u8>, p: int, n: nat) -> Result<(Seq<ArtPinV>, int), ArtError>
    decreases n,
{
    if n == 0 {
        Ok((Seq::empty(), p))
    } else {
        match sp_pin(s, p) {
            Err(e) => Err(e),
            Ok((v, p1)) => match sp_pins(s, p1, (n - 1) as nat) {
                Err(e) => Err(e),
                Ok((rest, p2)) => Ok((seq![v] + rest, p2)),
            },
        }
    }
}

/// The index of the first NUL byte of `b` at or after `i`, or the
/// length when none follows.
pub open spec fn first_nul(b: Seq<u8>, i: int) -> int
    decreases b.len() - i,
{
    if i < 0 || i >= b.len() {
        i
    } else if b[i] == 0 {
        i
    } else {
        first_nul(b, i + 1)
    }
}

/// A layer name: a fixed 256-byte field terminated at the first NUL,
/// its prefix decoded as UTF-8.
pub open spec fn sp_const_str(s: Seq<u8>, p: int) -> Result<(Seq<char>, int), ArtError> {
    if 0 <= p && p + 256 <= s.len() {
        let buf = s.subrange(p, p + 256);
        let body = buf.take(first_nul(buf, 0));
        if valid_utf8(body) {
            Ok((decode_utf8(body), p + 256))
        } else {
            Err(ArtError::Utf8)
        }
    } else {
        Err(ArtError::TruncatedInput)
    }
}

/// One layer header.
pub open spec fn sp_layer_info(s: Seq<u8>, p: int) -> Result<(LayerInfoV, int), ArtError> {
    match sp_u32(s, p) {
        Err(e) => Err(e),
        Ok((vis, p1)) => match sp_u32(s, p1) {
            Err(e) => Err(e),
            Ok((op, p2)) => match sp_const_str(s, p2) {
                Err(e) => Err(e),
                Ok((nm, p3)) => match sp_u32(s, p3) {
                    Err(e) => Err(e),
                    Ok((ac, p4)) => match sp_matrix(s, p4) {
                        Err(e) => Err(e),
                        Ok((mx, p5)) => match sp_u32(s, p5) {
                            Err(e) => Err(e),
                            Ok((zm, p6)) => Ok(
                                (
                                    LayerInfoV {
                                        visible: vis != 0,
                                        opacity: op,
                                        name: nm,
                                        action_count: ac,
                                        matrix: mx,
                                        zoom: zm,
                                    },
                                    p6,
                                ),
                            ),
                        },
                    },
                },
            },
        },
    }
}

pub open spec fn sp_layers(s: Seq<u8>, p: int, n: nat) -> Result<(Seq<LayerInfoV>, int), ArtError>
    decreases n,
{
    if n == 0 {
        Ok((Seq::empty(), p))
    } else {
        match sp_layer_info(s, p) {
            Err(e) => Err(e),
            Ok((v, p1)) => match sp_layers(s, p1, (n - 1) as nat) {
                Err(e) => Err(e),
                Ok((rest, p2)) => Ok((seq![v] + rest, p2)),
            },
        }
    }
}

/// One image: a kind word and a length-prefixed byte payload.
pub open spec fn sp_image(s: Seq<u8>, p: int) -> Result<(ImageV, int), ArtError> {
    match sp_u32(s, p) {
        Err(e) => Err(e),
        Ok((kind, p1)) => match sp_u32(s, p1) {
            Err(e) => Err(e),
            Ok((n, p2)) => {
                if p2 + n > s.len() {
                    Err(ArtError::TruncatedInput)
                } else {
                    Ok((ImageV { kind, raw: s.subrange(p2, p2 + n) }, p2 + n))
                }
            },
        },
    }
}

pub open spec fn sp_images(s: Seq<u8>, p: int, n: nat) -> Result<(Seq<ImageV>, int), ArtError>
    decreases n,
{
    if n == 0 {
        Ok((Seq::empty(), p))
    } else {
        match sp_image(s, p) {
            Err(e) => Err(e),
            Ok((v, p1)) => match sp_images(s, p1, (n - 1) as nat) {
                Err(e) => Err(e),
                Ok((rest, p2)) => Ok((seq![v] + rest, p2)),
            },
        }
    }
}

/// One stroke delta record, decoded from its packed 40 bits: the two
/// 14-bit magnitudes, the sign bits at positions 14 and 20, and the
/// 10-bit pressure assembled from the top two bits of the word and
/// the trailing byte.
pub open spec fn sp_delta(tmp: u32, b8: u8) -> StrokeDelta {
    StrokeDelta {
        dx_mag: (tmp & 0x3FFF) as u16,
        dx_neg: (tmp >> 14) & 1 == 1,
        dy_mag: ((tmp >> 15) & 0x3FFF) as u16,
        dy_neg: (tmp >> 20) & 1 == 1,
        p: ((tmp >> 30) | ((b8 as u32) << 2)) as u16,
    }
}

/// `n` consecutive five-byte delta records.
pub open spec fn sp_deltas(s: Seq<u8>, p: int, n: nat) -> Result<(Seq<StrokeDelta>, int), ArtError> {
    if 0 <= p && p + 5 * n <= s.len() {
        Ok((Seq::new(n, |i: int| sp_delta(s_le32(s, p + 5 * i), s[p + 5 * i + 4])), p + 5 * n))
    } else {
        Err(ArtError::TruncatedInput)
    }
}

/// A stroke: a point count, the first point as three f32 bit
/// patterns, then a delta record for each further point.
pub open spec fn sp_action_stroke(s: Seq<u8>, p: int) -> Result<(ActionV, int), ArtError> {
    match sp_u32(s, p) {
        Err(e) => Err(e),
        Ok((count, p1)) => {
            if count == 0 {
                Ok((ActionV::Stroke { first: None, deltas: Seq::empty() }, p1))
            } else if p1 + 12 <= s.len() {
                let first = StrokePoint {
                    x: s_le32(s, p1),
                    y: s_le32(s, p1 + 4),
                    p: s_le32(s, p1 + 8),
                };
                match sp_deltas(s, p1 + 12, (count - 1) as nat) {
                    Err(e) => Err(e),
                    Ok((ds, p2)) => Ok((ActionV::Stroke { first: Some(first), deltas: ds }, p2)),
                }
            } else {
                Err(ArtError::TruncatedInput)
            }
        },
    }
}

/// The opaque 20-byte payload.
pub open spec fn sp_action_05(s: Seq<u8>, p: int) -> Result<(ActionV, int), ArtError> {
    if 0 <= p && p + 20 <= s.len() {
        Ok((ActionV::_Unknown05(s.subrange(p, p + 20)), p + 20))
    } else {
        Err(ArtError::TruncatedInput)
    }
}

/// An image draw: destination centre and size, an unknown word, the
/// source size, and the image index.
pub open spec fn sp_action_draw_image(s: Seq<u8>, p: int) -> Result<(ActionV, int), ArtError> {
    if 0 <= p && p + 32 <= s.len() {
        Ok(
            (
                ActionV::DrawImage {
                    dst_center: Seq::new(2, |i: int| s_le32(s, p + 4 * i)),
                    dst_size: Seq::new(2, |i: int| s_le32(s, p + 8 + 4 * i)),
                    _unknown: s_le32(s, p + 16),
                    src_size: Seq::new(2, |i: int| s_le32(s, p + 20 + 4 * i)),
                    image_id: s_le32(s, p + 28) as usize,
                },
                p + 32,
            ),
        )
    } else {
        Err(ArtError::TruncatedInput)
    }
}

/// The opaque one-word payload.
pub open spec fn sp_action_08(s: Seq<u8>, p: int) -> Result<(ActionV, int), ArtError> {
    match sp_u32(s, p) {
        Err(e) => Err(e),
        Ok((v, p2)) => Ok((ActionV::_Unknown08(v), p2)),
    }
}

/// A merge of another layer: source index, the two opacities, matrix
/// and zoom.
pub open spec fn sp_action_layer_merge(s: Seq<u8>, p: int) -> Result<(ActionV, int), ArtError> {
    if 0 <= p && p + 80 <= s.len() {
        Ok(
            (
                ActionV::LayerMerge {
                    other: s_le32(s, p) as usize,
                    opacity_src: s_le32(s, p + 4),
                    opacity_dst: s_le32(s, p + 8),
                    matrix: Seq::new(16, |i: int| s_le32(s, p + 12 + 4 * i)),
                    zoom: s_le32(s, p + 76),
                },
                p + 80,
            ),
        )
    } else {
        Err(ArtError::TruncatedInput)
    }
}

/// A layer transform: matrix and zoom.
pub open spec fn sp_action_layer_transform(s: Seq<u8>, p: int) -> Result<(ActionV, int), ArtError> {
    match sp_matrix(s, p) {
        Err(e) => Err(e),
        Ok((mx, p1)) => match sp_u32(s, p1) {
            Err(e) => Err(e),
            Ok((zm, p2)) => Ok((ActionV::LayerTransform { matrix: mx, zoom: zm }, p2)),
        },
    }
}

/// A rectangle cut.
pub open spec fn sp_action_cut_rect(s: Seq<u8>, p: int) -> Result<(ActionV, int), ArtError> {
    match sp_rect(s, p) {
        Err(e) => Err(e),
        Ok((rc, p2)) => Ok((ActionV::CutRect { rect: rc }, p2)),
    }
}

/// A layer paste: source layer, rectangle, and two matrix/zoom pairs.
pub open spec fn sp_action_paste_layer(s: Seq<u8>, p: int) -> Result<(ActionV, int), ArtError> {
    if 0 <= p && p + 156 <= s.len() {
        Ok(
            (
                ActionV::PasteLayer(
                    PastePropsV {
                        from_layer: s_le32(s, p) as usize,
                        rect: Seq::new(4, |i: int| s_le32(s, p + 4 + 4 * i)),
                        matrix1: Seq::new(16, |i: int| s_le32(s, p + 20 + 4 * i)),
                        zoom1: s_le32(s, p + 84),
                        matrix2: Seq::new(16, |i: int| s_le32(s, p + 88 + 4 * i)),
                        zoom2: s_le32(s, p + 152),
                    },
                ),
                p + 156,
            ),
        )
    } else {
        Err(ArtError::TruncatedInput)
    }
}

/// A pen transform: matrix and zoom.
pub open spec fn sp_action_pen_transform(s: Seq<u8>, p: int) -> Result<(ActionV, int), ArtError> {
    match sp_matrix(s, p) {
        Err(e) => Err(e),
        Ok((mx, p1)) => match sp_u32(s, p1) {
            Err(e) => Err(e),
            Ok((zm, p2)) => Ok((ActionV::PenTransform { matrix: mx, zoom: zm }, p2)),
        },
    }
}

/// A pen-properties update: kind and five f32 bit patterns.
pub open spec fn sp_action_pen_props(s: Seq<u8>, p: int) -> Result<(ActionV, int), ArtError> {
    if 0 <= p && p + 24 <= s.len() {
        Ok(
            (
                ActionV::PenProperties(
                    PenUpdate {
                        kind: s_le32(s, p),
                        noise: s_le32(s, p + 4),
                        size: s_le32(s, p + 8),
                        size_min: s_le32(s, p + 12),
                        opacity: s_le32(s, p + 16),
                        opacity_min: s_le32(s, p + 20),
                    },
                ),
                p + 24,
            ),
        )
    } else {
        Err(ArtError::TruncatedInput)
    }
}

/// A pen colour change.
pub open spec fn sp_action_pen_color(s: Seq<u8>, p: int) -> Result<(ActionV, int), ArtError> {
    match sp_rgb(s, p) {
        Err(e) => Err(e),
        Ok((c, p2)) => Ok((ActionV::PenColor(c), p2)),
    }
}

/// The eraser toggle, encoded as a nonzero word.
pub open spec fn sp_action_pen_is_eraser(s: Seq<u8>, p: int) -> Result<(ActionV, int), ArtError> {
    match sp_u32(s, p) {
        Err(e) => Err(e),
        Ok((v, p2)) => Ok((ActionV::PenIsEraser(v != 0), p2)),
    }
}

/// The payload of one action, dispatched on its tag word.  An
/// unknown tag is a `BadAction`.
pub open spec fn sp_action_body(s: Seq<u8>, tag: u32, p: int) -> Result<(ActionV, int), ArtError> {
    if tag == 0x01 {
        sp_action_stroke(s, p)
    } else if tag == 0x05 {
        sp_action_05(s, p)
    } else if tag == 0x07 {
        sp_action_draw_image(s, p)
    } else if tag == 0x08 {
        sp_action_08(s, p)
    } else if tag == 0x0C {
        sp_action_layer_merge(s, p)
    } else if tag == 0x0D {
        sp_action_layer_transform(s, p)
    } else if tag == 0x0E {
        sp_action_cut_rect(s, p)
    } else if tag == 0x0F {
        sp_action_paste_layer(s, p)
    } else if tag == 0x33 {
        sp_action_pen_transform(s, p)
    } else if tag == 0x34 {
        sp_action_pen_props(s, p)
    } else if tag == 0x35 {
        sp_action_pen_color(s, p)
    } else if tag == 0x36 {
        sp_action_pen_is_eraser(s, p)
    } else {
        Err(ArtError::BadAction(tag))
    }
}

/// One action-log entry: the layer index, the tag word, and the
/// payload the tag dictates.
pub open spec fn sp_action(s: Seq<u8>, p: int) -> Result<((usize, ActionV), int), ArtError> {
    match sp_u32(s, p) {
        Err(e) => Err(e),
        Ok((layer, p0)) => match sp_u32(s, p0) {
            Err(e) => Err(e),
            Ok((tag, p1)) => match sp_action_body(s, tag, p1) {
                Err(e) => Err(e),
                Ok((a, p2)) => Ok(((layer as usize, a), p2)),
            },
        },
    }
}

pub open spec fn sp_actions(s: Seq<u8>, p: int, n: nat) -> Result<
    (Seq<(usize, ActionV)>, int),
    ArtError,
>
    decreases n,
{
    if n == 0 {
        Ok((Seq::empty(), p))
    } else {
        match sp_action(s, p) {
            Err(e) => Err(e),
            Ok((v, p1)) => match sp_actions(s, p1, (n - 1) as nat) {
                Err(e) => Err(e),
                Ok((rest, p2)) => Ok((seq![v] + rest, p2)),
            },
        }
    }
}

/// A count-prefixed list of 32-bit words, as layer order indices.
pub open spec fn sp_layer_order(s: Seq<u8>, p: int) -> Result<(Seq<usize>, int), ArtError> {
    match sp_u32(s, p) {
        Err(e) => Err(e),
        Ok((n, p1)) => {
            if p1 + 4 * n <= s.len() {
                Ok((Seq::new(n as nat, |i: int| s_le32(s, p1 + 4 * i) as usize), p1 + 4 * n))
            } else {
                Err(ArtError::TruncatedInput)
            }
        },
    }
}

/// The decompressed body: header fields, layer order, layers, images
/// and the action log, in sequence.  Trailing bytes are ignored.
/// The pin table lives in the compressed prefix, so `pins` is empty
/// here.
pub open spec fn sp_content(s: Seq<u8>) -> Result<ArtFileV, ArtError> {
    if 35 <= s.len() {
        let version = s_le32(s, 0);
        let active_layer = s_le32(s, 4);
        let bg = RGB { r: s[12], g: s[13], b: s[14] };
        let bg_alpha = s_le32(s, 15);
        match sp_pen(s, 35) {
            Err(e) => Err(e),
            Ok((pen, p1)) => {
                if p1 + 76 <= s.len() {
                    let mx = Seq::new(16, |i: int| s_le32(s, p1 + 8 + 4 * i));
                    let zoom = s_le32(s, p1 + 72);
                    match sp_layer_order(s, p1 + 76) {
                        Err(e) => Err(e),
                        Ok((order, p2)) => match sp_u32(s, p2) {
                            Err(e) => Err(e),
                            Ok((nl, p3)) => match sp_layers(s, p3, nl as nat) {
                                Err(e) => Err(e),
                                Ok((layers, p4)) => match sp_u32(s, p4) {
                                    Err(e) => Err(e),
                                    Ok((ni, p5)) => match sp_images(s, p5, ni as nat) {
                                        Err(e) => Err(e),
                                        Ok((images, p6)) => match sp_u32(s, p6) {
                                            Err(e) => Err(e),
                                            Ok((na, p7)) => match sp_actions(s, p7, na as nat) {
                                                Err(e) => Err(e),
                                                Ok((actions, p8)) => Ok(
                                                    ArtFileV {
                                                        version: version as usize,
                                                        active_layer: active_layer as usize,
                                                        background_color: bg,
                                                        background_alpha: bg_alpha,
                                                        pen_info: pen,
                                                        view_matrix: mx,
                                                        view_zoom: zoom,
                                                        pins: Seq::empty(),
                                                        layer_order: order,
                                                        layers,
                                                        images,
                                                        actions,
                                                    },
                                                ),
                                            },
                                        },
                                    },
                                },
                            },
                        },
                    }
                } else {
                    Err(ArtError::TruncatedInput)
                }
            },
        }
    } else {
        Err(ArtError::TruncatedInput)
    }
}

/// The uncompressed file prefix: the magic word, the version word,
/// a version-dependent discarded span, the pin table for the latest
/// revision, and the length-prefixed compressed payload.
pub open spec fn sp_compressed(s: Seq<u8>) -> Result<(int, Seq<ArtPinV>, Seq<u8>), ArtError> {
    match sp_u32(s, 0) {
        Err(e) => Err(e),
        Ok((magic, p0)) => {
            if magic != 0xE78BB3C5u32 && magic != 0xE98BB3C5u32 {
                Err(ArtError::BadMagic(magic))
            } else {
                match sp_u32(s, p0) {
                    Err(e) => Err(e),
                    Ok((version, p1)) => {
                        let low = version & 0xFF;
                        let rest: Result<(Seq<ArtPinV>, int), ArtError> = if low == 0x00 {
                            if p1 + 8 <= s.len() {
                                Ok((Seq::empty(), p1 + 8))
                            } else {
                                Err(ArtError::TruncatedInput)
                            }
                        } else if low == 0x81 {
                            if p1 + 0x1C <= s.len() {
                                Ok((Seq::empty(), p1 + 0x1C))
                            } else {
                                Err(ArtError::TruncatedInput)
                            }
                        } else if low == 0x82 {
                            if p1 + 0x21 <= s.len() {
                                match sp_u32(s, p1 + 0x21) {
                                    Err(e) => Err(e),
                                    Ok((np, p2)) => sp_pins(s, p2, np as nat),
                                }
                            } else {
                                Err(ArtError::TruncatedInput)
                            }
                        } else {
                            Err(ArtError::BadVersion(version))
                        };
                        match rest {
                            Err(e) => Err(e),
                            Ok((pins, p3)) => match sp_u32(s, p3) {
                                Err(e) => Err(e),
                                Ok((raw, p4)) => {
                                    if p4 + raw <= s.len() {
                                        Ok(
                                            (
                                                (low as int),
                                                pins,
                                                s.subrange(p4, p4 + raw),
                                            ),
                                        )
                                    } else {
                                        Err(ArtError::TruncatedInput)
                                    }
                                },
                            },
                        }
                    },
                }
            }
        },
    }
}

/// A whole parse from raw bytes: the prefix, the decompressor, the
/// body, and the pins carried over from the prefix.
pub open spec fn sp_from_bytes(s: Seq<u8>) -> Result<ArtFileV, ArtError> {
    match sp_compressed(s) {
        Err(e) => Err(e),
        Ok((ver, pins, payload)) => match s_decompress(payload) {
            Err(de) => Err(ArtError::Decompress(de)),
            Ok(body) => match sp_content(body) {
                Err(e) => Err(e),
                Ok(f) => Ok(ArtFileV { pins, ..f }),
            },
        },
    }
}

/// The x displacement a delta record denotes, in 32nds of a unit.
pub open spec fn delta_dx(d: StrokeDelta) -> int {
    if d.dx_neg {
        -(d.dx_mag as int)
    } else {
        d.dx_mag as int
    }
}

/// The y displacement a delta record denotes, in 32nds of a unit.
pub open spec fn delta_dy(d: StrokeDelta) -> int {
    if d.dy_neg {
        -(d.dy_mag as int)
    } else {
        d.dy_mag as int
    }
}

/// Sign bits of stroke deltas: the x displacement is nonpositive
/// when bit 14 of the packed word is set and nonnegative when it is
/// clear — an equivalence whenever the magnitude is nonzero (a zero
/// magnitude is nonpositive either way); likewise the y displacement
/// with bit 20.  The pressure is a 10-bit value, so dividing it by
/// 1023 lands in the unit interval.
pub proof fn lemma_delta_signs(tmp: u32, b8: u8)
    ensures
        (tmp >> 14) & 1 == 1 ==> delta_dx(sp_delta(tmp, b8)) <= 0,
        (tmp >> 14) & 1 == 0 ==> delta_dx(sp_delta(tmp, b8)) >= 0,
        sp_delta(tmp, b8).dx_mag != 0 ==> (delta_dx(sp_delta(tmp, b8)) <= 0 <==> (tmp >> 14) & 1
            == 1),
        (tmp >> 20) & 1 == 1 ==> delta_dy(sp_delta(tmp, b8)) <= 0,
        (tmp >> 20) & 1 == 0 ==> delta_dy(sp_delta(tmp, b8)) >= 0,
        sp_delta(tmp, b8).dy_mag != 0 ==> (delta_dy(sp_delta(tmp, b8)) <= 0 <==> (tmp >> 20) & 1
            == 1),
        sp_delta(tmp, b8).p < 1024,
{
    assert(((tmp >> 30) | ((b8 as u32) << 2)) < 1024) by (bit_vector);
    assert((tmp & 0x3FFF) < 0x10000) by (bit_vector);
    assert(((tmp >> 15) & 0x3FFF) < 0x10000) by (bit_vector);
}

/// Two byte sequences that agree on a window.
pub open spec fn bytes_agree(s1: Seq<u8>, s2: Seq<u8>, p: int, p2: int) -> bool {
    forall|j: int| p <= j < p2 ==> s1[j] == s2[j]
}

proof fn lemma_le32_local(s1: Seq<u8>, s2: Seq<u8>, q: int, p: int, p2: int)
    requires
        bytes_agree(s1, s2, p, p2),
        p <= q,
        q + 4 <= p2,
    ensures
        s_le32(s1, q) == s_le32(s2, q),
{
    assert(s1[q] == s2[q]);
    assert(s1[q + 1] == s2[q + 1]);
    assert(s1[q + 2] == s2[q + 2]);
    assert(s1[q + 3] == s2[q + 3]);
}

/// Action tag closure: what an action decodes to is a function of the
/// tag and payload bytes alone.  Any byte sequence that agrees with
/// the first on the consumed window, and reaches at least to its end,
/// decodes to the same entry with the same consumed length.
pub proof fn lemma_action_local(s1: Seq<u8>, s2: Seq<u8>, p: int)
    requires
        sp_action(s1, p) is Ok,
        sp_action(s1, p)->Ok_0.1 <= s2.len(),
        bytes_agree(s1, s2, p, sp_action(s1, p)->Ok_0.1),
    ensures
        sp_action(s2, p) == sp_action(s1, p),
{
    let pend = sp_action(s1, p)->Ok_0.1;
    lemma_le32_local(s1, s2, p, p, pend);
    lemma_le32_local(s1, s2, p + 4, p, pend);
    let tag = s_le32(s1, p + 4);
    let p1 = p + 8;
    assert forall|q: int| p <= q && q + 4 <= pend implies s_le32(s1, q) == s_le32(s2, q) by {
        lemma_le32_local(s1, s2, q, p, pend);
    }
    if tag == 0x01 {
        let count = s_le32(s1, p1);
        if count == 0 {
        } else {
            let n = (count - 1) as nat;
            let start = p1 + 16;
            assert(sp_deltas(s2, start, n) is Ok);
            let ds1 = sp_deltas(s1, start, n)->Ok_0.0;
            let ds2 = sp_deltas(s2, start, n)->Ok_0.0;
            assert forall|i: int| 0 <= i < n implies ds1[i] == ds2[i] by {
                lemma_le32_local(s1, s2, start + 5 * i, p, pend);
                assert(s1[start + 5 * i + 4] == s2[start + 5 * i + 4]);
            }
            assert(ds1 =~= ds2);
        }
    } else if tag == 0x05 {
        assert(s1.subrange(p1, p1 + 20) =~= s2.subrange(p1, p1 + 20));
    } else if tag == 0x07 {
        assert(Seq::new(2, |i: int| s_le32(s1, p1 + 4 * i)) =~= Seq::new(
            2,
            |i: int| s_le32(s2, p1 + 4 * i),
        ));
        assert(Seq::new(2, |i: int| s_le32(s1, p1 + 8 + 4 * i)) =~= Seq::new(
            2,
            |i: int| s_le32(s2, p1 + 8 + 4 * i),
        ));
        assert(Seq::new(2, |i: int| s_le32(s1, p1 + 20 + 4 * i)) =~= Seq::new(
            2,
            |i: int| s_le32(s2, p1 + 20 + 4 * i),
        ));
    } else if tag == 0x08 {
    } else if tag == 0x0C {
        assert(Seq::new(16, |i: int| s_le32(s1, p1 + 12 + 4 * i)) =~= Seq::new(
            16,
            |i: int| s_le32(s2, p1 + 12 + 4 * i),
        ));
    } else if tag == 0x0D {
        assert(Seq::new(16, |i: int| s_le32(s1, p1 + 4 * i)) =~= Seq::new(
            16,
            |i: int| s_le32(s2, p1 + 4 * i),
        ));
    } else if tag == 0x0E {
        assert(Seq::new(4, |i: int| s_le32(s1, p1 + 4 * i)) =~= Seq::new(
            4,
            |i: int| s_le32(s2, p1 + 4 * i),
        ));
    } else if tag == 0x0F {
        assert(Seq::new(4, |i: int| s_le32(s1, p1 + 4 + 4 * i)) =~= Seq::new(
            4,
            |i: int| s_le32(s2, p1 + 4 + 4 * i),
        ));
        assert(Seq::new(16, |i: int| s_le32(s1, p1 + 20 + 4 * i)) =~= Seq::new(
            16,
            |i: int| s_le32(s2, p1 + 20 + 4 * i),
        ));
        assert(Seq::new(16, |i: int| s_le32(s1, p1 + 88 + 4 * i)) =~= Seq::new(
            16,
            |i: int| s_le32(s2, p1 + 88 + 4 * i),
        ));
    } else if tag == 0x33 {
        assert(Seq::new(16, |i: int| s_le32(s1, p1 + 4 * i)) =~= Seq::new(
            16,
            |i: int| s_le32(s2, p1 + 4 * i),
        ));
    } else if tag == 0x34 {
    } else if tag == 0x35 {
        assert(s1[p1] == s2[p1] && s1[p1 + 1] == s2[p1 + 1] && s1[p1 + 2] == s2[p1 + 2]);
    } else if tag == 0x36 {
    }
}

} // verus!
