//! Executable container parser.
//!
//! Every reader is proved equal to its model in `parsespec`: it
//! yields the same value, leaves the cursor at the same spot, and
//! fails with the same error on the same inputs.

use vstd::prelude::*;

verus! {

use crate::art::{
    ArtError, RGB, PenInfo, PenUpdate, StrokePoint, StrokeDelta, ArtPin, ArtPinV, LayerInfo,
    LayerInfoV, Image, ImageV, PasteProps, Action, ActionV, ArtFile, ArtFileV, pins_view,
    layers_view, images_view, actions_view,
};
use crate::lzspec::s_le32;
use crate::parsespec::{
    trim_of, sp_u8, sp_u32, sp_rgb, sp_matrix, sp_rect, sp_pen, sp_pin_name, sp_pin, sp_pins,
    first_nul, sp_const_str, sp_layer_info, sp_layers, sp_image, sp_images, sp_delta, sp_deltas,
    sp_action_stroke, sp_action, sp_actions, sp_layer_order, sp_content, sp_compressed,
    sp_from_bytes, sp_action_05, sp_action_draw_image, sp_action_08, sp_action_layer_merge,
    sp_action_layer_transform, sp_action_cut_rect, sp_action_paste_layer, sp_action_pen_transform,
    sp_action_pen_props, sp_action_pen_color, sp_action_pen_is_eraser, sp_action_body,
};
use vstd::utf8::{valid_utf8, decode_utf8};
use vstd::pervasive::unreached;
use vstd::slice::{slice_subrange, slice_to_vec};

/// Relies on `core::str::from_utf8` (with `str::to_string` converting
/// the borrowed result): `Some` exactly on valid UTF-8, holding the
/// characters the bytes encode.
#[verifier::external_body]
fn bytes_to_string(v: &[u8]) -> (r: Option<String>)
    ensures
        r is Some <==> valid_utf8(v@),
        r is Some ==> r->0@ == decode_utf8(v@),
{
    match core::str::from_utf8(v) {
        Ok(s) => Some(s.to_string()),
        Err(_) => None,
    }
}

/// Relies on `str::trim` (with `str::to_string` converting the
/// borrowed result): Unicode-whitespace trimming of both ends, a
/// function of the characters alone.
#[verifier::external_body]
fn trim_string(s: &String) -> (r: String)
    ensures
        r@ == trim_of(s@),
{
    s.trim().to_string()
}

/// One byte.
pub fn read_u8(data: &[u8], p: usize) -> (r: Result<(u8, usize), ArtError>)
    requires
        p <= data@.len(),
    ensures
        match r {
            Ok((v, p2)) => sp_u8(data@, p as int) == Ok::<(u8, int), ArtError>((v, p2 as int))
                && p2 <= data@.len(),
            Err(e) => sp_u8(data@, p as int) == Err::<(u8, int), ArtError>(e),
        },
{
    if data.len() - p >= 1 {
        Ok((data[p], p + 1))
    } else {
        Err(ArtError::TruncatedInput)
    }
}

/// One 32-bit little-endian word.
pub fn read_u32(data: &[u8], p: usize) -> (r: Result<(u32, usize), ArtError>)
    requires
        p <= data@.len(),
    ensures
        match r {
            Ok((v, p2)) => sp_u32(data@, p as int) == Ok::<(u32, int), ArtError>((v, p2 as int))
                && p2 <= data@.len() && p2 == p + 4,
            Err(e) => sp_u32(data@, p as int) == Err::<(u32, int), ArtError>(e),
        },
{
    if data.len() - p >= 4 {
        let v = (data[p] as u32) | ((data[p + 1] as u32) << 8) | ((data[p + 2] as u32) << 16) | ((
        data[p + 3] as u32) << 24);
        Ok((v, p + 4))
    } else {
        Err(ArtError::TruncatedInput)
    }
}

/// A colour triplet.
pub fn read_rgb(data: &[u8], p: usize) -> (r: Result<(RGB, usize), ArtError>)
    requires
        p <= data@.len(),
    ensures
        match r {
            Ok((v, p2)) => sp_rgb(data@, p as int) == Ok::<(RGB, int), ArtError>((v, p2 as int))
                && p2 <= data@.len() && p2 == p + 3,
            Err(e) => sp_rgb(data@, p as int) == Err::<(RGB, int), ArtError>(e),
        },
{
    if data.len() - p >= 3 {
        Ok((RGB { r: data[p], g: data[p + 1], b: data[p + 2] }, p + 3))
    } else {
        Err(ArtError::TruncatedInput)
    }
}

/// Sixteen 32-bit words of a 4x4 matrix, as raw f32 bit patterns.
pub fn read_matrix(data: &[u8], p: usize) -> (r: Result<(Vec<u32>, usize), ArtError>)
    requires
        p <= data@.len(),
    ensures
        match r {
            Ok((m, p2)) => sp_matrix(data@, p as int) == Ok::<(Seq<u32>, int), ArtError>(
                (m@, p2 as int),
            ) && p2 <= data@.len() && p2 == p + 64,
            Err(e) => sp_matrix(data@, p as int) == Err::<(Seq<u32>, int), ArtError>(e),
        },
{
    if data.len() - p >= 64 {
        let mut m: Vec<u32> = Vec::new();
        let mut i: usize = 0;
        while i < 16
            invariant
                data@.len() <= usize::MAX,
                p + 64 <= data@.len(),
                i <= 16,
                m@.len() == i,
                forall|j: int| 0 <= j < i ==> m@[j] == s_le32(data@, p + 4 * j),
            decreases 16 - i,
        {
            let v = match read_u32(data, p + 4 * i) {
                Ok((v, u)) => v,
                Err(e) => unreached(),
            };
            m.push(v);
            i = i + 1;
        }
        proof {
            assert(m@ =~= Seq::new(16, |j: int| s_le32(data@, p + 4 * j)));
        }
        Ok((m, p + 64))
    } else {
        Err(ArtError::TruncatedInput)
    }
}

/// Four 32-bit words of a rectangle, as raw f32 bit patterns.
pub fn read_rect(data: &[u8], p: usize) -> (r: Result<(Vec<u32>, usize), ArtError>)
    requires
        p <= data@.len(),
    ensures
        match r {
            Ok((m, p2)) => sp_rect(data@, p as int) == Ok::<(Seq<u32>, int), ArtError>(
                (m@, p2 as int),
            ) && p2 <= data@.len() && p2 == p + 16,
            Err(e) => sp_rect(data@, p as int) == Err::<(Seq<u32>, int), ArtError>(e),
        },
{
    if data.len() - p >= 16 {
        let mut m: Vec<u32> = Vec::new();
        let mut i: usize = 0;
        while i < 4
            invariant
                data@.len() <= usize::MAX,
                p + 16 <= data@.len(),
                i <= 4,
                m@.len() == i,
                forall|j: int| 0 <= j < i ==> m@[j] == s_le32(data@, p + 4 * j),
            decreases 4 - i,
        {
            let v = match read_u32(data, p + 4 * i) {
                Ok((v, u)) => v,
                Err(e) => unreached(),
            };
            m.push(v);
            i = i + 1;
        }
        proof {
            assert(m@ =~= Seq::new(4, |j: int| s_le32(data@, p + 4 * j)));
        }
        Ok((m, p + 16))
    } else {
        Err(ArtError::TruncatedInput)
    }
}

/// The pen block of the file header.
pub fn read_pen(data: &[u8], p: usize) -> (r: Result<(PenInfo, usize), ArtError>)
    requires
        p <= data@.len(),
    ensures
        match r {
            Ok((v, p2)) => sp_pen(data@, p as int) == Ok::<(PenInfo, int), ArtError>(
                (v, p2 as int),
            ) && p2 <= data@.len() && p2 == p + 31,
            Err(e) => sp_pen(data@, p as int) == Err::<(PenInfo, int), ArtError>(e),
        },
{
    if data.len() - p >= 31 {
        let kind = match read_u32(data, p) {
            Ok((v, u)) => v,
            Err(e) => unreached(),
        };
        let eraser = match read_u32(data, p + 27) {
            Ok((v, u)) => v,
            Err(e) => unreached(),
        };
        let noise = match read_u32(data, p + 7) {
            Ok((v, u)) => v,
            Err(e) => unreached(),
        };
        let size = match read_u32(data, p + 11) {
            Ok((v, u)) => v,
            Err(e) => unreached(),
        };
        let size_min = match read_u32(data, p + 15) {
            Ok((v, u)) => v,
            Err(e) => unreached(),
        };
        let opacity = match read_u32(data, p + 19) {
            Ok((v, u)) => v,
            Err(e) => unreached(),
        };
        let opacity_min = match read_u32(data, p + 23) {
            Ok((v, u)) => v,
            Err(e) => unreached(),
        };
        let pen = PenInfo {
            kind,
            color: RGB { r: data[p + 4], g: data[p + 5], b: data[p + 6] },
            noise,
            size,
            size_min,
            opacity,
            opacity_min,
            is_eraser: eraser != 0,
        };
        Ok((pen, p + 31))
    } else {
        Err(ArtError::TruncatedInput)
    }
}

/// A pin name: length-prefixed, trailing NUL dropped, UTF-8 decoded
/// and trimmed.
pub fn read_str(data: &[u8], p: usize) -> (r: Result<(String, usize), ArtError>)
    requires
        p <= data@.len(),
    ensures
        match r {
            Ok((nm, p2)) => sp_pin_name(data@, p as int) == Ok::<(Seq<char>, int), ArtError>(
                (nm@, p2 as int),
            ) && p2 <= data@.len(),
            Err(e) => sp_pin_name(data@, p as int) == Err::<(Seq<char>, int), ArtError>(e),
        },
{
    let (n, p1) = match read_u32(data, p) {
        Ok(x) => x,
        Err(e) => {
            return Err(e);
        },
    };
    if (n as usize) > data.len() - p1 {
        return Err(ArtError::TruncatedInput);
    }
    let end = p1 + (n as usize);
    let body_end = if n == 0 {
        end
    } else {
        end - 1
    };
    let slice = slice_subrange(data, p1, body_end);
    proof {
        let raw = data@.subrange(p1 as int, p1 + n);
        let body = if n == 0 {
            raw
        } else {
            raw.take(n - 1)
        };
        assert(slice@ =~= body);
    }
    let st = match bytes_to_string(slice) {
        Some(s) => s,
        None => {
            return Err(ArtError::Utf8);
        },
    };
    let trimmed = trim_string(&st);
    Ok((trimmed, end))
}

/// `first_nul` is the index of the first NUL at or after the scanned
/// prefix.
proof fn lemma_first_nul(b: Seq<u8>, k: int, i: int)
    requires
        0 <= k <= i <= b.len(),
        forall|j: int| k <= j < i ==> b[j] != 0,
        i == b.len() || b[i] == 0,
    ensures
        first_nul(b, k) == i,
    decreases i - k,
{
    if k < i {
        lemma_first_nul(b, k + 1, i);
    }
}

/// A layer name: a fixed 256-byte field read up to its first NUL.
pub fn read_const_str(data: &[u8], p: usize) -> (r: Result<(String, usize), ArtError>)
    requires
        p <= data@.len(),
    ensures
        match r {
            Ok((nm, p2)) => sp_const_str(data@, p as int) == Ok::<(Seq<char>, int), ArtError>(
                (nm@, p2 as int),
            ) && p2 <= data@.len() && p2 == p + 256,
            Err(e) => sp_const_str(data@, p as int) == Err::<(Seq<char>, int), ArtError>(e),
        },
{
    if data.len() - p < 256 {
        return Err(ArtError::TruncatedInput);
    }
    let mut i: usize = 0;
    while i < 256 && data[p + i] != 0
        invariant
            data@.len() <= usize::MAX,
            p + 256 <= data@.len(),
            i <= 256,
            forall|j: int| 0 <= j < i ==> #[trigger] data@.subrange(p as int, p + 256)[j] != 0u8,
        decreases 256 - i,
    {
        i = i + 1;
    }
    let slice = slice_subrange(data, p, p + i);
    proof {
        let buf = data@.subrange(p as int, p + 256);
        lemma_first_nul(buf, 0, i as int);
        assert(slice@ =~= buf.take(first_nul(buf, 0)));
    }
    let st = match bytes_to_string(slice) {
        Some(s) => s,
        None => {
            return Err(ArtError::Utf8);
        },
    };
    Ok((st, p + 256))
}

/// One pin: matrix and name.
pub fn read_pin(data: &[u8], p: usize) -> (r: Result<(ArtPin, usize), ArtError>)
    requires
        p <= data@.len(),
    ensures
        match r {
            Ok((v, p2)) => sp_pin(data@, p as int) == Ok::<(ArtPinV, int), ArtError>(
                (v@, p2 as int),
            ) && p2 <= data@.len(),
            Err(e) => sp_pin(data@, p as int) == Err::<(ArtPinV, int), ArtError>(e),
        },
{
    let (m, p1) = match read_matrix(data, p) {
        Ok(x) => x,
        Err(e) => {
            return Err(e);
        },
    };
    let (nm, p2) = match read_str(data, p1) {
        Ok(x) => x,
        Err(e) => {
            return Err(e);
        },
    };
    Ok((ArtPin { matrix: m, name: nm }, p2))
}

/// One layer header.
pub fn read_layer_info(data: &[u8], p: usize) -> (r: Result<(LayerInfo, usize), ArtError>)
    requires
        p <= data@.len(),
    ensures
        match r {
            Ok((v, p2)) => sp_layer_info(data@, p as int) == Ok::<(LayerInfoV, int), ArtError>(
                (v@, p2 as int),
            ) && p2 <= data@.len(),
            Err(e) => sp_layer_info(data@, p as int) == Err::<(LayerInfoV, int), ArtError>(e),
        },
{
    let (vis, p1) = match read_u32(data, p) {
        Ok(x) => x,
        Err(e) => {
            return Err(e);
        },
    };
    let (op, p2) = match read_u32(data, p1) {
        Ok(x) => x,
        Err(e) => {
            return Err(e);
        },
    };
    let (nm, p3) = match read_const_str(data, p2) {
        Ok(x) => x,
        Err(e) => {
            return Err(e);
        },
    };
    let (ac, p4) = match read_u32(data, p3) {
        Ok(x) => x,
        Err(e) => {
            return Err(e);
        },
    };
    let (mx, p5) = match read_matrix(data, p4) {
        Ok(x) => x,
        Err(e) => {
            return Err(e);
        },
    };
    let (zm, p6) = match read_u32(data, p5) {
        Ok(x) => x,
        Err(e) => {
            return Err(e);
        },
    };
    let li = LayerInfo {
        visible: vis != 0,
        opacity: op,
        name: nm,
        action_count: ac,
        matrix: mx,
        zoom: zm,
    };
    Ok((li, p6))
}

/// One image: kind word and length-prefixed payload.
pub fn read_image(data: &[u8], p: usize) -> (r: Result<(Image, usize), ArtError>)
    requires
        p <= data@.len(),
    ensures
        match r {
            Ok((v, p2)) => sp_image(data@, p as int) == Ok::<(ImageV, int), ArtError>(
                (v@, p2 as int),
            ) && p2 <= data@.len(),
            Err(e) => sp_image(data@, p as int) == Err::<(ImageV, int), ArtError>(e),
        },
{
    let (kind, p1) = match read_u32(data, p) {
        Ok(x) => x,
        Err(e) => {
            return Err(e);
        },
    };
    let (n, p2) = match read_u32(data, p1) {
        Ok(x) => x,
        Err(e) => {
            return Err(e);
        },
    };
    if (n as usize) > data.len() - p2 {
        return Err(ArtError::TruncatedInput);
    }
    let end = p2 + (n as usize);
    let slice = slice_subrange(data, p2, end);
    Ok((Image { kind, raw: slice_to_vec(slice) }, end))
}

/// A stroke: a point count, the first point, then one five-byte
/// delta record per further point.
pub fn read_action_stroke(data: &[u8], p: usize) -> (r: Result<(Action, usize), ArtError>)
    requires
        p <= data@.len(),
    ensures
        match r {
            Ok((a, p2)) => sp_action_stroke(data@, p as int) == Ok::<(ActionV, int), ArtError>(
                (a@, p2 as int),
            ) && p2 <= data@.len(),
            Err(e) => sp_action_stroke(data@, p as int) == Err::<(ActionV, int), ArtError>(e),
        },
{
    let (count, p1) = match read_u32(data, p) {
        Ok(x) => x,
        Err(e) => {
            return Err(e);
        },
    };
    if count == 0 {
        let ds: Vec<StrokeDelta> = Vec::new();
        proof {
            assert(ds@ =~= Seq::<StrokeDelta>::empty());
        }
        return Ok((Action::Stroke { first: None, deltas: ds }, p1));
    }
    if data.len() - p1 < 12 {
        return Err(ArtError::TruncatedInput);
    }
    let xv = match read_u32(data, p1) {
        Ok((v, u)) => v,
        Err(e) => unreached(),
    };
    let yv = match read_u32(data, p1 + 4) {
        Ok((v, u)) => v,
        Err(e) => unreached(),
    };
    let pv = match read_u32(data, p1 + 8) {
        Ok((v, u)) => v,
        Err(e) => unreached(),
    };
    let first = StrokePoint { x: xv, y: yv, p: pv };
    let start = p1 + 12;
    let avail = data.len() - start;
    if (count as u64 - 1) * 5 > (avail as u64) {
        return Err(ArtError::TruncatedInput);
    }
    let nu = (count - 1) as usize;
    let mut ds: Vec<StrokeDelta> = Vec::new();
    let mut i: usize = 0;
    while i < nu
        invariant
            data@.len() <= usize::MAX,
            start + 5 * nu <= data@.len(),
            i <= nu,
            ds@.len() == i,
            forall|j: int|
                0 <= j < i ==> ds@[j] == sp_delta(
                    s_le32(data@, start + 5 * j),
                    data@[start + 5 * j + 4],
                ),
        decreases nu - i,
    {
        let q = start + 5 * i;
        let tmp = match read_u32(data, q) {
            Ok((v, u)) => v,
            Err(e) => unreached(),
        };
        let b8 = match read_u8(data, q + 4) {
            Ok((v, u)) => v,
            Err(e) => unreached(),
        };
        proof {
            assert(tmp & 0x3FFF < 0x10000) by (bit_vector);
            assert(((tmp >> 15) & 0x3FFF) < 0x10000) by (bit_vector);
            assert(((tmp >> 30) | ((b8 as u32) << 2)) < 0x10000) by (bit_vector);
        }
        let d = StrokeDelta {
            dx_mag: (tmp & 0x3FFF) as u16,
            dx_neg: (tmp >> 14) & 1 == 1,
            dy_mag: ((tmp >> 15) & 0x3FFF) as u16,
            dy_neg: (tmp >> 20) & 1 == 1,
            p: ((tmp >> 30) | ((b8 as u32) << 2)) as u16,
        };
        ds.push(d);
        i = i + 1;
    }
    proof {
        assert(ds@ =~= Seq::new(
            nu as nat,
            |j: int| sp_delta(s_le32(data@, start + 5 * j), data@[start + 5 * j + 4]),
        ));
    }
    Ok((Action::Stroke { first: Some(first), deltas: ds }, start + 5 * nu))
}

/// The opaque 20-byte payload.
pub fn read_action_05(data: &[u8], p: usize) -> (r: Result<(Action, usize), ArtError>)
    requires
        p <= data@.len(),
    ensures
        match r {
            Ok((a, p2)) => sp_action_05(data@, p as int) == Ok::<(ActionV, int), ArtError>(
                (a@, p2 as int),
            ) && p2 <= data@.len(),
            Err(e) => sp_action_05(data@, p as int) == Err::<(ActionV, int), ArtError>(e),
        },
{
    if data.len() - p < 20 {
        return Err(ArtError::TruncatedInput);
    }
    let slice = slice_subrange(data, p, p + 20);
    Ok((Action::_Unknown05(slice_to_vec(slice)), p + 20))
}

/// An image draw.
pub fn read_action_draw_image(data: &[u8], p: usize) -> (r: Result<(Action, usize), ArtError>)
    requires
        p <= data@.len(),
    ensures
        match r {
            Ok((a, p2)) => sp_action_draw_image(data@, p as int) == Ok::<
                (ActionV, int),
                ArtError,
            >((a@, p2 as int)) && p2 <= data@.len(),
            Err(e) => sp_action_draw_image(data@, p as int) == Err::<(ActionV, int), ArtError>(e),
        },
{
    if data.len() - p < 32 {
        return Err(ArtError::TruncatedInput);
    }
    let mut dc: Vec<u32> = Vec::new();
    let mut dz: Vec<u32> = Vec::new();
    let mut sz: Vec<u32> = Vec::new();
    let w0 = match read_u32(data, p) {
        Ok((v, u)) => v,
        Err(e) => unreached(),
    };
    let w1 = match read_u32(data, p + 4) {
        Ok((v, u)) => v,
        Err(e) => unreached(),
    };
    let w2 = match read_u32(data, p + 8) {
        Ok((v, u)) => v,
        Err(e) => unreached(),
    };
    let w3 = match read_u32(data, p + 12) {
        Ok((v, u)) => v,
        Err(e) => unreached(),
    };
    let w4 = match read_u32(data, p + 16) {
        Ok((v, u)) => v,
        Err(e) => unreached(),
    };
    let w5 = match read_u32(data, p + 20) {
        Ok((v, u)) => v,
        Err(e) => unreached(),
    };
    let w6 = match read_u32(data, p + 24) {
        Ok((v, u)) => v,
        Err(e) => unreached(),
    };
    let w7 = match read_u32(data, p + 28) {
        Ok((v, u)) => v,
        Err(e) => unreached(),
    };
    dc.push(w0);
    dc.push(w1);
    dz.push(w2);
    dz.push(w3);
    sz.push(w5);
    sz.push(w6);
    proof {
        assert(dc@ =~= Seq::new(2, |i: int| s_le32(data@, p + 4 * i)));
        assert(dz@ =~= Seq::new(2, |i: int| s_le32(data@, p + 8 + 4 * i)));
        assert(sz@ =~= Seq::new(2, |i: int| s_le32(data@, p + 20 + 4 * i)));
    }
    let a = Action::DrawImage {
        dst_center: dc,
        dst_size: dz,
        _unknown: w4,
        src_size: sz,
        image_id: w7 as usize,
    };
    Ok((a, p + 32))
}

/// The opaque one-word payload.
pub fn read_action_08(data: &[u8], p: usize) -> (r: Result<(Action, usize), ArtError>)
    requires
        p <= data@.len(),
    ensures
        match r {
            Ok((a, p2)) => sp_action_08(data@, p as int) == Ok::<(ActionV, int), ArtError>(
                (a@, p2 as int),
            ) && p2 <= data@.len(),
            Err(e) => sp_action_08(data@, p as int) == Err::<(ActionV, int), ArtError>(e),
        },
{
    let (v, p2) = match read_u32(data, p) {
        Ok(x) => x,
        Err(e) => {
            return Err(e);
        },
    };
    Ok((Action::_Unknown08(v), p2))
}

/// A merge of another layer.
pub fn read_action_layer_merge(data: &[u8], p: usize) -> (r: Result<(Action, usize), ArtError>)
    requires
        p <= data@.len(),
    ensures
        match r {
            Ok((a, p2)) => sp_action_layer_merge(data@, p as int) == Ok::<
                (ActionV, int),
                ArtError,
            >((a@, p2 as int)) && p2 <= data@.len(),
            Err(e) => sp_action_layer_merge(data@, p as int) == Err::<(ActionV, int), ArtError>(
                e,
            ),
        },
{
    if data.len() - p < 80 {
        return Err(ArtError::TruncatedInput);
    }
    let other = match read_u32(data, p) {
        Ok((v, u)) => v,
        Err(e) => unreached(),
    };
    let osrc = match read_u32(data, p + 4) {
        Ok((v, u)) => v,
        Err(e) => unreached(),
    };
    let odst = match read_u32(data, p + 8) {
        Ok((v, u)) => v,
        Err(e) => unreached(),
    };
    let (mx, pm) = match read_matrix(data, p + 12) {
        Ok(x) => x,
        Err(e) => unreached(),
    };
    let zm = match read_u32(data, p + 76) {
        Ok((v, u)) => v,
        Err(e) => unreached(),
    };
    let a = Action::LayerMerge {
        other: other as usize,
        opacity_src: osrc,
        opacity_dst: odst,
        matrix: mx,
        zoom: zm,
    };
    Ok((a, p + 80))
}

/// A layer transform.
pub fn read_action_layer_transform(data: &[u8], p: usize) -> (r: Result<
    (Action, usize),
    ArtError,
>)
    requires
        p <= data@.len(),
    ensures
        match r {
            Ok((a, p2)) => sp_action_layer_transform(data@, p as int) == Ok::<
                (ActionV, int),
                ArtError,
            >((a@, p2 as int)) && p2 <= data@.len(),
            Err(e) => sp_action_layer_transform(data@, p as int) == Err::<
                (ActionV, int),
                ArtError,
            >(e),
        },
{
    let (mx, p1) = match read_matrix(data, p) {
        Ok(x) => x,
        Err(e) => {
            return Err(e);
        },
    };
    let (zm, p2) = match read_u32(data, p1) {
        Ok(x) => x,
        Err(e) => {
            return Err(e);
        },
    };
    Ok((Action::LayerTransform { matrix: mx, zoom: zm }, p2))
}

/// A rectangle cut.
pub fn read_action_cut_rect(data: &[u8], p: usize) -> (r: Result<(Action, usize), ArtError>)
    requires
        p <= data@.len(),
    ensures
        match r {
            Ok((a, p2)) => sp_action_cut_rect(data@, p as int) == Ok::<(ActionV, int), ArtError>(
                (a@, p2 as int),
            ) && p2 <= data@.len(),
            Err(e) => sp_action_cut_rect(data@, p as int) == Err::<(ActionV, int), ArtError>(e),
        },
{
    let (rc, p2) = match read_rect(data, p) {
        Ok(x) => x,
        Err(e) => {
            return Err(e);
        },
    };
    Ok((Action::CutRect { rect: rc }, p2))
}

/// A layer paste.
pub fn read_action_paste_layer(data: &[u8], p: usize) -> (r: Result<(Action, usize), ArtError>)
    requires
        p <= data@.len(),
    ensures
        match r {
            Ok((a, p2)) => sp_action_paste_layer(data@, p as int) == Ok::<
                (ActionV, int),
                ArtError,
            >((a@, p2 as int)) && p2 <= data@.len(),
            Err(e) => sp_action_paste_layer(data@, p as int) == Err::<(ActionV, int), ArtError>(
                e,
            ),
        },
{
    if data.len() - p < 156 {
        return Err(ArtError::TruncatedInput);
    }
    let fl = match read_u32(data, p) {
        Ok((v, u)) => v,
        Err(e) => unreached(),
    };
    let (rc, u1) = match read_rect(data, p + 4) {
        Ok(x) => x,
        Err(e) => unreached(),
    };
    let (m1, u2) = match read_matrix(data, p + 20) {
        Ok(x) => x,
        Err(e) => unreached(),
    };
    let z1 = match read_u32(data, p + 84) {
        Ok((v, u)) => v,
        Err(e) => unreached(),
    };
    let (m2, u3) = match read_matrix(data, p + 88) {
        Ok(x) => x,
        Err(e) => unreached(),
    };
    let z2 = match read_u32(data, p + 152) {
        Ok((v, u)) => v,
        Err(e) => unreached(),
    };
    let a = Action::PasteLayer(
        PasteProps {
            from_layer: fl as usize,
            rect: rc,
            matrix1: m1,
            zoom1: z1,
            matrix2: m2,
            zoom2: z2,
        },
    );
    Ok((a, p + 156))
}

/// A pen transform.
pub fn read_action_pen_transform(data: &[u8], p: usize) -> (r: Result<(Action, usize), ArtError>)
    requires
        p <= data@.len(),
    ensures
        match r {
            Ok((a, p2)) => sp_action_pen_transform(data@, p as int) == Ok::<
                (ActionV, int),
                ArtError,
            >((a@, p2 as int)) && p2 <= data@.len(),
            Err(e) => sp_action_pen_transform(data@, p as int) == Err::<(ActionV, int), ArtError>(
                e,
            ),
        },
{
    let (mx, p1) = match read_matrix(data, p) {
        Ok(x) => x,
        Err(e) => {
            return Err(e);
        },
    };
    let (zm, p2) = match read_u32(data, p1) {
        Ok(x) => x,
        Err(e) => {
            return Err(e);
        },
    };
    Ok((Action::PenTransform { matrix: mx, zoom: zm }, p2))
}

/// A pen-properties update.
pub fn read_action_pen_props(data: &[u8], p: usize) -> (r: Result<(Action, usize), ArtError>)
    requires
        p <= data@.len(),
    ensures
        match r {
            Ok((a, p2)) => sp_action_pen_props(data@, p as int) == Ok::<(ActionV, int), ArtError>(
                (a@, p2 as int),
            ) && p2 <= data@.len(),
            Err(e) => sp_action_pen_props(data@, p as int) == Err::<(ActionV, int), ArtError>(e),
        },
{
    if data.len() - p < 24 {
        return Err(ArtError::TruncatedInput);
    }
    let kind = match read_u32(data, p) {
        Ok((v, u)) => v,
        Err(e) => unreached(),
    };
    let noise = match read_u32(data, p + 4) {
        Ok((v, u)) => v,
        Err(e) => unreached(),
    };
    let size = match read_u32(data, p + 8) {
        Ok((v, u)) => v,
        Err(e) => unreached(),
    };
    let size_min = match read_u32(data, p + 12) {
        Ok((v, u)) => v,
        Err(e) => unreached(),
    };
    let opacity = match read_u32(data, p + 16) {
        Ok((v, u)) => v,
        Err(e) => unreached(),
    };
    let opacity_min = match read_u32(data, p + 20) {
        Ok((v, u)) => v,
        Err(e) => unreached(),
    };
    let a = Action::PenProperties(
        PenUpdate { kind, noise, size, size_min, opacity, opacity_min },
    );
    Ok((a, p + 24))
}

/// A pen colour change.
pub fn read_action_pen_color(data: &[u8], p: usize) -> (r: Result<(Action, usize), ArtError>)
    requires
        p <= data@.len(),
    ensures
        match r {
            Ok((a, p2)) => sp_action_pen_color(data@, p as int) == Ok::<(ActionV, int), ArtError>(
                (a@, p2 as int),
            ) && p2 <= data@.len(),
            Err(e) => sp_action_pen_color(data@, p as int) == Err::<(ActionV, int), ArtError>(e),
        },
{
    let (c, p2) = match read_rgb(data, p) {
        Ok(x) => x,
        Err(e) => {
            return Err(e);
        },
    };
    Ok((Action::PenColor(c), p2))
}

/// The eraser toggle.
pub fn read_action_pen_is_eraser(data: &[u8], p: usize) -> (r: Result<(Action, usize), ArtError>)
    requires
        p <= data@.len(),
    ensures
        match r {
            Ok((a, p2)) => sp_action_pen_is_eraser(data@, p as int) == Ok::<
                (ActionV, int),
                ArtError,
            >((a@, p2 as int)) && p2 <= data@.len(),
            Err(e) => sp_action_pen_is_eraser(data@, p as int) == Err::<(ActionV, int), ArtError>(
                e,
            ),
        },
{
    let (v, p2) = match read_u32(data, p) {
        Ok(x) => x,
        Err(e) => {
            return Err(e);
        },
    };
    Ok((Action::PenIsEraser(v != 0), p2))
}

/// One action-log entry: layer index, tag word, and the payload the
/// tag dictates.
pub fn read_action(data: &[u8], p: usize) -> (r: Result<((usize, Action), usize), ArtError>)
    requires
        p <= data@.len(),
    ensures
        match r {
            Ok(((layer, a), p2)) => sp_action(data@, p as int) == Ok::<
                ((usize, ActionV), int),
                ArtError,
            >(((layer, a@), p2 as int)) && p2 <= data@.len(),
            Err(e) => sp_action(data@, p as int) == Err::<((usize, ActionV), int), ArtError>(e),
        },
{
    let (layer, p0) = match read_u32(data, p) {
        Ok(x) => x,
        Err(e) => {
            return Err(e);
        },
    };
    let (tag, p1) = match read_u32(data, p0) {
        Ok(x) => x,
        Err(e) => {
            return Err(e);
        },
    };
    let body: Result<(Action, usize), ArtError> = if tag == 0x01 {
        read_action_stroke(data, p1)
    } else if tag == 0x05 {
        read_action_05(data, p1)
    } else if tag == 0x07 {
        read_action_draw_image(data, p1)
    } else if tag == 0x08 {
        read_action_08(data, p1)
    } else if tag == 0x0C {
        read_action_layer_merge(data, p1)
    } else if tag == 0x0D {
        read_action_layer_transform(data, p1)
    } else if tag == 0x0E {
        read_action_cut_rect(data, p1)
    } else if tag == 0x0F {
        read_action_paste_layer(data, p1)
    } else if tag == 0x33 {
        read_action_pen_transform(data, p1)
    } else if tag == 0x34 {
        read_action_pen_props(data, p1)
    } else if tag == 0x35 {
        read_action_pen_color(data, p1)
    } else if tag == 0x36 {
        read_action_pen_is_eraser(data, p1)
    } else {
        Err(ArtError::BadAction(tag))
    };
    match body {
        Ok((a, p2)) => Ok(((layer as usize, a), p2)),
        Err(e) => Err(e),
    }
}

/// The count-prefixed pin table of the newest revision.
pub fn read_pins(data: &[u8], p: usize, n: u32) -> (r: Result<(Vec<ArtPin>, usize), ArtError>)
    requires
        p <= data@.len(),
    ensures
        match r {
            Ok((v, p2)) => sp_pins(data@, p as int, n as nat) == Ok::<
                (Seq<ArtPinV>, int),
                ArtError,
            >((pins_view(v@), p2 as int)) && p2 <= data@.len(),
            Err(e) => sp_pins(data@, p as int, n as nat) == Err::<(Seq<ArtPinV>, int), ArtError>(
                e,
            ),
        },
{
    let mut items: Vec<ArtPin> = Vec::new();
    let mut q = p;
    let mut j: u32 = 0;
    proof {
        assert(pins_view(items@) =~= Seq::<ArtPinV>::empty());
    }
    while j < n
        invariant
            j <= n,
            q <= data@.len(),
            ({
                let full = sp_pins(data@, p as int, n as nat);
                match sp_pins(data@, q as int, (n - j) as nat) {
                    Ok((rest, pe)) => full == Ok::<(Seq<ArtPinV>, int), ArtError>(
                        (pins_view(items@) + rest, pe),
                    ),
                    Err(e) => full == Err::<(Seq<ArtPinV>, int), ArtError>(e),
                }
            }),
        decreases n - j,
    {
        let ghost prev = items@;
        let (it, q2) = match read_pin(data, q) {
            Ok(x) => x,
            Err(e) => {
                return Err(e);
            },
        };
        let ghost itv = it@;
        items.push(it);
        q = q2;
        j = j + 1;
        proof {
            assert(pins_view(items@) =~= pins_view(prev) + seq![itv]);
            if sp_pins(data@, q as int, (n - j) as nat) is Ok {
                let (rest, pe) = sp_pins(data@, q as int, (n - j) as nat)->Ok_0;
                assert((pins_view(prev) + seq![itv]) + rest =~= pins_view(prev) + (seq![itv]
                    + rest));
            }
        }
    }
    proof {
        assert(pins_view(items@) + Seq::<ArtPinV>::empty() =~= pins_view(items@));
    }
    Ok((items, q))
}

/// The count-prefixed word list that hints at the layer order.
pub fn read_layer_order(data: &[u8], p: usize) -> (r: Result<(Vec<usize>, usize), ArtError>)
    requires
        p <= data@.len(),
    ensures
        match r {
            Ok((v, p2)) => sp_layer_order(data@, p as int) == Ok::<(Seq<usize>, int), ArtError>(
                (v@, p2 as int),
            ) && p2 <= data@.len(),
            Err(e) => sp_layer_order(data@, p as int) == Err::<(Seq<usize>, int), ArtError>(e),
        },
{
    let (n, p1) = match read_u32(data, p) {
        Ok(x) => x,
        Err(e) => {
            return Err(e);
        },
    };
    let avail = data.len() - p1;
    if (n as u64) * 4 > (avail as u64) {
        return Err(ArtError::TruncatedInput);
    }
    let nu = n as usize;
    let mut items: Vec<usize> = Vec::new();
    let mut j: usize = 0;
    while j < nu
        invariant
            data@.len() <= usize::MAX,
            p1 + 4 * nu <= data@.len(),
            j <= nu,
            items@.len() == j,
            forall|i: int| 0 <= i < j ==> items@[i] == s_le32(data@, p1 + 4 * i) as usize,
        decreases nu - j,
    {
        let v = match read_u32(data, p1 + 4 * j) {
            Ok((v, u)) => v,
            Err(e) => unreached(),
        };
        items.push(v as usize);
        j = j + 1;
    }
    proof {
        assert(items@ =~= Seq::new(n as nat, |i: int| s_le32(data@, p1 + 4 * i) as usize));
    }
    Ok((items, p1 + 4 * nu))
}

/// The count-prefixed layer table.
pub fn read_layers(data: &[u8], p: usize, n: u32) -> (r: Result<(Vec<LayerInfo>, usize), ArtError>)
    requires
        p <= data@.len(),
    ensures
        match r {
            Ok((v, p2)) => sp_layers(data@, p as int, n as nat) == Ok::<
                (Seq<LayerInfoV>, int),
                ArtError,
            >((layers_view(v@), p2 as int)) && p2 <= data@.len(),
            Err(e) => sp_layers(data@, p as int, n as nat) == Err::<
                (Seq<LayerInfoV>, int),
                ArtError,
            >(e),
        },
{
    let mut items: Vec<LayerInfo> = Vec::new();
    let mut q = p;
    let mut j: u32 = 0;
    proof {
        assert(layers_view(items@) =~= Seq::<LayerInfoV>::empty());
    }
    while j < n
        invariant
            j <= n,
            q <= data@.len(),
            ({
                let full = sp_layers(data@, p as int, n as nat);
                match sp_layers(data@, q as int, (n - j) as nat) {
                    Ok((rest, pe)) => full == Ok::<(Seq<LayerInfoV>, int), ArtError>(
                        (layers_view(items@) + rest, pe),
                    ),
                    Err(e) => full == Err::<(Seq<LayerInfoV>, int), ArtError>(e),
                }
            }),
        decreases n - j,
    {
        let ghost prev = items@;
        let (it, q2) = match read_layer_info(data, q) {
            Ok(x) => x,
            Err(e) => {
                return Err(e);
            },
        };
        let ghost itv = it@;
        items.push(it);
        q = q2;
        j = j + 1;
        proof {
            assert(layers_view(items@) =~= layers_view(prev) + seq![itv]);
            if sp_layers(data@, q as int, (n - j) as nat) is Ok {
                let (rest, pe) = sp_layers(data@, q as int, (n - j) as nat)->Ok_0;
                assert((layers_view(prev) + seq![itv]) + rest =~= layers_view(prev) + (seq![itv]
                    + rest));
            }
        }
    }
    proof {
        assert(layers_view(items@) + Seq::<LayerInfoV>::empty() =~= layers_view(items@));
    }
    Ok((items, q))
}

/// The count-prefixed image table.
pub fn read_images(data: &[u8], p: usize, n: u32) -> (r: Result<(Vec<Image>, usize), ArtError>)
    requires
        p <= data@.len(),
    ensures
        match r {
            Ok((v, p2)) => sp_images(data@, p as int, n as nat) == Ok::<
                (Seq<ImageV>, int),
                ArtError,
            >((images_view(v@), p2 as int)) && p2 <= data@.len(),
            Err(e) => sp_images(data@, p as int, n as nat) == Err::<(Seq<ImageV>, int), ArtError>(
                e,
            ),
        },
{
    let mut items: Vec<Image> = Vec::new();
    let mut q = p;
    let mut j: u32 = 0;
    proof {
        assert(images_view(items@) =~= Seq::<ImageV>::empty());
    }
    while j < n
        invariant
            j <= n,
            q <= data@.len(),
            ({
                let full = sp_images(data@, p as int, n as nat);
                match sp_images(data@, q as int, (n - j) as nat) {
                    Ok((rest, pe)) => full == Ok::<(Seq<ImageV>, int), ArtError>(
                        (images_view(items@) + rest, pe),
                    ),
                    Err(e) => full == Err::<(Seq<ImageV>, int), ArtError>(e),
                }
            }),
        decreases n - j,
    {
        let ghost prev = items@;
        let (it, q2) = match read_image(data, q) {
            Ok(x) => x,
            Err(e) => {
                return Err(e);
            },
        };
        let ghost itv = it@;
        items.push(it);
        q = q2;
        j = j + 1;
        proof {
            assert(images_view(items@) =~= images_view(prev) + seq![itv]);
            if sp_images(data@, q as int, (n - j) as nat) is Ok {
                let (rest, pe) = sp_images(data@, q as int, (n - j) as nat)->Ok_0;
                assert((images_view(prev) + seq![itv]) + rest =~= images_view(prev) + (seq![itv]
                    + rest));
            }
        }
    }
    proof {
        assert(images_view(items@) + Seq::<ImageV>::empty() =~= images_view(items@));
    }
    Ok((items, q))
}

/// The count-prefixed action log.
pub fn read_actions(data: &[u8], p: usize, n: u32) -> (r: Result<
    (Vec<(usize, Action)>, usize),
    ArtError,
>)
    requires
        p <= data@.len(),
    ensures
        match r {
            Ok((v, p2)) => sp_actions(data@, p as int, n as nat) == Ok::<
                (Seq<(usize, ActionV)>, int),
                ArtError,
            >((actions_view(v@), p2 as int)) && p2 <= data@.len(),
            Err(e) => sp_actions(data@, p as int, n as nat) == Err::<
                (Seq<(usize, ActionV)>, int),
                ArtError,
            >(e),
        },
{
    let mut items: Vec<(usize, Action)> = Vec::new();
    let mut q = p;
    let mut j: u32 = 0;
    proof {
        assert(actions_view(items@) =~= Seq::<(usize, ActionV)>::empty());
    }
    while j < n
        invariant
            j <= n,
            q <= data@.len(),
            ({
                let full = sp_actions(data@, p as int, n as nat);
                match sp_actions(data@, q as int, (n - j) as nat) {
                    Ok((rest, pe)) => full == Ok::<(Seq<(usize, ActionV)>, int), ArtError>(
                        (actions_view(items@) + rest, pe),
                    ),
                    Err(e) => full == Err::<(Seq<(usize, ActionV)>, int), ArtError>(e),
                }
            }),
        decreases n - j,
    {
        let ghost prev = items@;
        let (it, q2) = match read_action(data, q) {
            Ok(x) => x,
            Err(e) => {
                return Err(e);
            },
        };
        let ghost itv = (it.0, it.1@);
        items.push(it);
        q = q2;
        j = j + 1;
        proof {
            assert(actions_view(items@) =~= actions_view(prev) + seq![itv]);
            if sp_actions(data@, q as int, (n - j) as nat) is Ok {
                let (rest, pe) = sp_actions(data@, q as int, (n - j) as nat)->Ok_0;
                assert((actions_view(prev) + seq![itv]) + rest =~= actions_view(prev) + (seq![itv]
                    + rest));
            }
        }
    }
    proof {
        assert(actions_view(items@) + Seq::<(usize, ActionV)>::empty() =~= actions_view(items@));
    }
    Ok((items, q))
}

/// The decompressed body: header fields, layer order, layer table,
/// image table and action log.  The pin table lives in the compressed
/// prefix, so `pins` comes back empty here.
#[verifier::rlimit(60)]
pub fn read_content(data: &[u8]) -> (r: Result<ArtFile, ArtError>)
    ensures
        match r {
            Ok(af) => sp_content(data@) == Ok::<ArtFileV, ArtError>(af@),
            Err(e) => sp_content(data@) == Err::<ArtFileV, ArtError>(e),
        },
{
    if data.len() < 35 {
        return Err(ArtError::TruncatedInput);
    }
    let version = match read_u32(data, 0) {
        Ok((v, u)) => v,
        Err(e) => unreached(),
    };
    let active_layer = match read_u32(data, 4) {
        Ok((v, u)) => v,
        Err(e) => unreached(),
    };
    let (bg, u1) = match read_rgb(data, 12) {
        Ok(x) => x,
        Err(e) => unreached(),
    };
    let bga = match read_u32(data, 15) {
        Ok((v, u)) => v,
        Err(e) => unreached(),
    };
    let (pen, p1) = match read_pen(data, 35) {
        Ok(x) => x,
        Err(e) => {
            return Err(e);
        },
    };
    if data.len() - p1 < 76 {
        return Err(ArtError::TruncatedInput);
    }
    let (mx, u2) = match read_matrix(data, p1 + 8) {
        Ok(x) => x,
        Err(e) => unreached(),
    };
    let zoom = match read_u32(data, p1 + 72) {
        Ok((v, u)) => v,
        Err(e) => unreached(),
    };
    let (order, p2) = match read_layer_order(data, p1 + 76) {
        Ok(x) => x,
        Err(e) => {
            return Err(e);
        },
    };
    let (nl, p3) = match read_u32(data, p2) {
        Ok(x) => x,
        Err(e) => {
            return Err(e);
        },
    };
    let (layers, p4) = match read_layers(data, p3, nl) {
        Ok(x) => x,
        Err(e) => {
            return Err(e);
        },
    };
    let (ni, p5) = match read_u32(data, p4) {
        Ok(x) => x,
        Err(e) => {
            return Err(e);
        },
    };
    let (images, p6) = match read_images(data, p5, ni) {
        Ok(x) => x,
        Err(e) => {
            return Err(e);
        },
    };
    let (na, p7) = match read_u32(data, p6) {
        Ok(x) => x,
        Err(e) => {
            return Err(e);
        },
    };
    let (actions, p8) = match read_actions(data, p7, na) {
        Ok(x) => x,
        Err(e) => {
            return Err(e);
        },
    };
    let af = ArtFile {
        version: version as usize,
        active_layer: active_layer as usize,
        background_color: bg,
        background_alpha: bga,
        pen_info: pen,
        view_matrix: mx,
        view_zoom: zoom,
        pins: Vec::new(),
        layer_order: order,
        layers,
        images,
        actions,
    };
    proof {
        assert(af@.pins =~= Seq::<ArtPinV>::empty());
        assert(af@ =~= sp_content(data@)->Ok_0);
    }
    Ok(af)
}

/// The uncompressed file prefix: magic, version word, a discarded
/// version-dependent span, the pin table of the newest revision, and
/// the length-prefixed compressed payload.  Returns the low version
/// byte, the pins, and the payload slice.
pub fn read_compressed<'a>(i: &'a [u8]) -> (r: Result<(usize, Vec<ArtPin>, &'a [u8]), ArtError>)
    ensures
        match r {
            Ok((ver, pins, payload)) => sp_compressed(i@) == Ok::<
                (int, Seq<ArtPinV>, Seq<u8>),
                ArtError,
            >((ver as int, pins_view(pins@), payload@)),
            Err(e) => sp_compressed(i@) == Err::<(int, Seq<ArtPinV>, Seq<u8>), ArtError>(e),
        },
{
    let (magic, p0) = match read_u32(i, 0) {
        Ok(x) => x,
        Err(e) => {
            return Err(e);
        },
    };
    if magic != 0xE78BB3C5 && magic != 0xE98BB3C5 {
        return Err(ArtError::BadMagic(magic));
    }
    let (version, p1) = match read_u32(i, p0) {
        Ok(x) => x,
        Err(e) => {
            return Err(e);
        },
    };
    let low = version & 0xFF;
    let mut pins: Vec<ArtPin> = Vec::new();
    let p3: usize;
    if low == 0x00 {
        if i.len() - p1 < 8 {
            return Err(ArtError::TruncatedInput);
        }
        p3 = p1 + 8;
    } else if low == 0x81 {
        if i.len() - p1 < 0x1C {
            return Err(ArtError::TruncatedInput);
        }
        p3 = p1 + 0x1C;
    } else if low == 0x82 {
        if i.len() - p1 < 0x21 {
            return Err(ArtError::TruncatedInput);
        }
        let (np, p2) = match read_u32(i, p1 + 0x21) {
            Ok(x) => x,
            Err(e) => {
                return Err(e);
            },
        };
        let (ps, pe) = match read_pins(i, p2, np) {
            Ok(x) => x,
            Err(e) => {
                return Err(e);
            },
        };
        pins = ps;
        p3 = pe;
    } else {
        return Err(ArtError::BadVersion(version));
    }
    proof {
        if low != 0x82 {
            assert(pins_view(pins@) =~= Seq::<ArtPinV>::empty());
        }
    }
    let (raw, p4) = match read_u32(i, p3) {
        Ok(x) => x,
        Err(e) => {
            return Err(e);
        },
    };
    if (raw as usize) > i.len() - p4 {
        return Err(ArtError::TruncatedInput);
    }
    let payload = slice_subrange(i, p4, p4 + (raw as usize));
    Ok(((low as usize), pins, payload))
}

impl ArtFile {
    /// Parses a whole file image: the uncompressed prefix, the
    /// decompressed body, and the pins carried over from the prefix.
    pub fn from_bytes(bytes: &[u8]) -> (r: Result<ArtFile, ArtError>)
        ensures
            match r {
                Ok(af) => sp_from_bytes(bytes@) == Ok::<ArtFileV, ArtError>(af@),
                Err(e) => sp_from_bytes(bytes@) == Err::<ArtFileV, ArtError>(e),
            },
    {
        let (ver, pins, payload) = match read_compressed(bytes) {
            Ok(x) => x,
            Err(e) => {
                return Err(e);
            },
        };
        let body = match crate::lzunpack::decompress(payload) {
            Ok(b) => b,
            Err(de) => {
                return Err(ArtError::Decompress(de));
            },
        };
        let mut art = match read_content(body.as_slice()) {
            Ok(a) => a,
            Err(e) => {
                return Err(e);
            },
        };
        art.pins = pins;
        proof {
            assert(art@ =~= sp_from_bytes(bytes@)->Ok_0);
        }
        Ok(art)
    }
}

} // verus!
