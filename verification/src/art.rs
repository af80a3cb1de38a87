//! The parsed representation of an ART document.
//!
//! Fields that the wire format stores as IEEE-754 single-precision
//! numbers are kept as their raw little-endian 32-bit patterns, so the
//! whole structure stays within verifiable integer arithmetic; callers
//! may reinterpret the bits.

use vstd::prelude::*;

verus! {

use crate::lzunpack::DecodeError;

/// A colour triplet.
#[derive(Clone, Copy, Debug, PartialEq, Eq, Structural)]
pub struct RGB {
    pub r: u8,
    pub g: u8,
    pub b: u8,
}

/// The drawing tool state stored in the file header.  The five f32
/// fields hold raw bit patterns.
#[derive(Clone, Copy, Debug, PartialEq, Eq, Structural)]
pub struct PenInfo {
    pub kind: u32,
    pub color: RGB,
    pub noise: u32,
    pub size: u32,
    pub size_min: u32,
    pub opacity: u32,
    pub opacity_min: u32,
    pub is_eraser: bool,
}

/// A named pin: a 4x4 f32 matrix (as bit patterns) and a trimmed
/// UTF-8 name.
#[derive(Debug)]
pub struct ArtPin {
    pub matrix: Vec<u32>,
    pub name: String,
}

#[verifier::ext_equal]
pub ghost struct ArtPinV {
    pub matrix: Seq<u32>,
    pub name: Seq<char>,
}

impl View for ArtPin {
    type V = ArtPinV;

    open spec fn view(&self) -> ArtPinV {
        ArtPinV { matrix: self.matrix@, name: self.name@ }
    }
}

/// One layer's header: visibility, opacity bits, name, advisory
/// action count, transform matrix bits and zoom bits.
#[derive(Debug)]
pub struct LayerInfo {
    pub visible: bool,
    pub opacity: u32,
    pub name: String,
    pub action_count: u32,
    pub matrix: Vec<u32>,
    pub zoom: u32,
}

#[verifier::ext_equal]
pub ghost struct LayerInfoV {
    pub visible: bool,
    pub opacity: u32,
    pub name: Seq<char>,
    pub action_count: u32,
    pub matrix: Seq<u32>,
    pub zoom: u32,
}

impl View for LayerInfo {
    type V = LayerInfoV;

    open spec fn view(&self) -> LayerInfoV {
        LayerInfoV {
            visible: self.visible,
            opacity: self.opacity,
            name: self.name@,
            action_count: self.action_count,
            matrix: self.matrix@,
            zoom: self.zoom,
        }
    }
}

/// An image attachment: a kind word and its raw byte payload.
#[derive(Debug)]
pub struct Image {
    pub kind: u32,
    pub raw: Vec<u8>,
}

#[verifier::ext_equal]
pub ghost struct ImageV {
    pub kind: u32,
    pub raw: Seq<u8>,
}

impl View for Image {
    type V = ImageV;

    open spec fn view(&self) -> ImageV {
        ImageV { kind: self.kind, raw: self.raw@ }
    }
}

/// The first point of a stroke: x, y and pressure as raw f32 bit
/// patterns.
#[derive(Clone, Copy, Debug, PartialEq, Eq, Structural)]
pub struct StrokePoint {
    pub x: u32,
    pub y: u32,
    pub p: u32,
}

/// One decoded stroke delta record: magnitudes in 32nds, sign flags,
/// and the absolute 10-bit pressure.
#[derive(Clone, Copy, Debug, PartialEq, Eq, Structural)]
pub struct StrokeDelta {
    pub dx_mag: u16,
    pub dx_neg: bool,
    pub dy_mag: u16,
    pub dy_neg: bool,
    pub p: u16,
}

/// A pen-properties update; the five f32 fields hold raw bit
/// patterns.
#[derive(Clone, Copy, Debug, PartialEq, Eq, Structural)]
pub struct PenUpdate {
    pub kind: u32,
    pub noise: u32,
    pub size: u32,
    pub size_min: u32,
    pub opacity: u32,
    pub opacity_min: u32,
}

/// The payload of a layer paste.
#[derive(Debug)]
pub struct PasteProps {
    pub from_layer: usize,
    pub rect: Vec<u32>,
    pub matrix1: Vec<u32>,
    pub zoom1: u32,
    pub matrix2: Vec<u32>,
    pub zoom2: u32,
}

#[verifier::ext_equal]
pub ghost struct PastePropsV {
    pub from_layer: usize,
    pub rect: Seq<u32>,
    pub matrix1: Seq<u32>,
    pub zoom1: u32,
    pub matrix2: Seq<u32>,
    pub zoom2: u32,
}

impl View for PasteProps {
    type V = PastePropsV;

    open spec fn view(&self) -> PastePropsV {
        PastePropsV {
            from_layer: self.from_layer,
            rect: self.rect@,
            matrix1: self.matrix1@,
            zoom1: self.zoom1,
            matrix2: self.matrix2@,
            zoom2: self.zoom2,
        }
    }
}

/// One entry of the action log.  A stroke keeps its first point as
/// raw bit patterns and every further point as a delta record.
#[derive(Debug)]
pub enum Action {
    Stroke { first: Option<StrokePoint>, deltas: Vec<StrokeDelta> },
    _Unknown08(u32),
    PenTransform { matrix: Vec<u32>, zoom: u32 },
    PenProperties(PenUpdate),
    PenColor(RGB),
    PenIsEraser(bool),
    PasteLayer(PasteProps),
    LayerTransform { matrix: Vec<u32>, zoom: u32 },
    CutRect { rect: Vec<u32> },
    LayerMerge { other: usize, opacity_src: u32, opacity_dst: u32, matrix: Vec<u32>, zoom: u32 },
    DrawImage {
        dst_center: Vec<u32>,
        dst_size: Vec<u32>,
        _unknown: u32,
        src_size: Vec<u32>,
        image_id: usize,
    },
    _Unknown05(Vec<u8>),
}

#[verifier::ext_equal]
pub ghost enum ActionV {
    Stroke { first: Option<StrokePoint>, deltas: Seq<StrokeDelta> },
    _Unknown08(u32),
    PenTransform { matrix: Seq<u32>, zoom: u32 },
    PenProperties(PenUpdate),
    PenColor(RGB),
    PenIsEraser(bool),
    PasteLayer(PastePropsV),
    LayerTransform { matrix: Seq<u32>, zoom: u32 },
    CutRect { rect: Seq<u32> },
    LayerMerge { other: usize, opacity_src: u32, opacity_dst: u32, matrix: Seq<u32>, zoom: u32 },
    DrawImage {
        dst_center: Seq<u32>,
        dst_size: Seq<u32>,
        _unknown: u32,
        src_size: Seq<u32>,
        image_id: usize,
    },
    _Unknown05(Seq<u8>),
}

impl View for Action {
    type V = ActionV;

    open spec fn view(&self) -> ActionV {
        match self {
            Action::Stroke { first, deltas } => ActionV::Stroke {
                first: *first,
                deltas: deltas@,
            },
            Action::_Unknown08(v) => ActionV::_Unknown08(*v),
            Action::PenTransform { matrix, zoom } => ActionV::PenTransform {
                matrix: matrix@,
                zoom: *zoom,
            },
            Action::PenProperties(u) => ActionV::PenProperties(*u),
            Action::PenColor(c) => ActionV::PenColor(*c),
            Action::PenIsEraser(b) => ActionV::PenIsEraser(*b),
            Action::PasteLayer(pp) => ActionV::PasteLayer(pp@),
            Action::LayerTransform { matrix, zoom } => ActionV::LayerTransform {
                matrix: matrix@,
                zoom: *zoom,
            },
            Action::CutRect { rect } => ActionV::CutRect { rect: rect@ },
            Action::LayerMerge { other, opacity_src, opacity_dst, matrix, zoom } => {
                ActionV::LayerMerge {
                    other: *other,
                    opacity_src: *opacity_src,
                    opacity_dst: *opacity_dst,
                    matrix: matrix@,
                    zoom: *zoom,
                }
            },
            Action::DrawImage { dst_center, dst_size, _unknown, src_size, image_id } => {
                ActionV::DrawImage {
                    dst_center: dst_center@,
                    dst_size: dst_size@,
                    _unknown: *_unknown,
                    src_size: src_size@,
                    image_id: *image_id,
                }
            },
            Action::_Unknown05(b) => ActionV::_Unknown05(b@),
        }
    }
}

/// The pins of a pin table, as their mathematical views.
pub open spec fn pins_view(v: Seq<ArtPin>) -> Seq<ArtPinV> {
    v.map_values(|x: ArtPin| x@)
}

/// The layers of a layer table, as their mathematical views.
pub open spec fn layers_view(v: Seq<LayerInfo>) -> Seq<LayerInfoV> {
    v.map_values(|x: LayerInfo| x@)
}

/// The images of an image table, as their mathematical views.
pub open spec fn images_view(v: Seq<Image>) -> Seq<ImageV> {
    v.map_values(|x: Image| x@)
}

/// The entries of an action log, as their mathematical views.
pub open spec fn actions_view(v: Seq<(usize, Action)>) -> Seq<(usize, ActionV)> {
    v.map_values(|x: (usize, Action)| (x.0, x.1@))
}

/// The parsed document.
pub struct ArtFile {
    pub version: usize,
    pub active_layer: usize,
    pub background_color: RGB,
    pub background_alpha: u32,
    pub pen_info: PenInfo,
    pub view_matrix: Vec<u32>,
    pub view_zoom: u32,
    pub pins: Vec<ArtPin>,
    pub layer_order: Vec<usize>,
    pub layers: Vec<LayerInfo>,
    pub images: Vec<Image>,
    pub actions: Vec<(usize, Action)>,
}

#[verifier::ext_equal]
pub ghost struct ArtFileV {
    pub version: usize,
    pub active_layer: usize,
    pub background_color: RGB,
    pub background_alpha: u32,
    pub pen_info: PenInfo,
    pub view_matrix: Seq<u32>,
    pub view_zoom: u32,
    pub pins: Seq<ArtPinV>,
    pub layer_order: Seq<usize>,
    pub layers: Seq<LayerInfoV>,
    pub images: Seq<ImageV>,
    pub actions: Seq<(usize, ActionV)>,
}

impl View for ArtFile {
    type V = ArtFileV;

    open spec fn view(&self) -> ArtFileV {
        ArtFileV {
            version: self.version,
            active_layer: self.active_layer,
            background_color: self.background_color,
            background_alpha: self.background_alpha,
            pen_info: self.pen_info,
            view_matrix: self.view_matrix@,
            view_zoom: self.view_zoom,
            pins: pins_view(self.pins@),
            layer_order: self.layer_order@,
            layers: layers_view(self.layers@),
            images: images_view(self.images@),
            actions: actions_view(self.actions@),
        }
    }
}

/// Failure of a parse.  All errors are fatal for the whole parse.
#[derive(Clone, Copy, Debug, PartialEq, Eq, Structural)]
pub enum ArtError {
    /// An underlying read failed before parsing began.
    IoError,
    /// A string field held invalid UTF-8.
    Utf8,
    /// The magic word matched neither accepted value.
    BadMagic(u32),
    /// The version byte is outside the three known revisions.
    BadVersion(u32),
    /// An action carried an unknown tag.
    BadAction(u32),
    /// The compressed payload was ill-formed.
    Decompress(DecodeError),
    /// A reader ran past the end of its input.
    TruncatedInput,
}

impl From<DecodeError> for ArtError {
    fn from(err: DecodeError) -> (r: ArtError) {
        ArtError::Decompress(err)
    }
}

impl vstd::std_specs::convert::FromSpecImpl<DecodeError> for ArtError {
    open spec fn obeys_from_spec() -> bool {
        true
    }

    open spec fn from_spec(err: DecodeError) -> ArtError {
        ArtError::Decompress(err)
    }
}

} // verus!
