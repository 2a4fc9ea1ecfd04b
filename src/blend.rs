//! Blend modes and how the compositing stage realizes each of them.

use vstd::prelude::*;

verus! {

/// How a path's color is combined with what lies beneath it.
#[derive(Clone, Copy, PartialEq, Eq, Structural, Debug)]
pub enum BlendMode {
    Clear,
    Copy,
    SrcIn,
    SrcOut,
    SrcOver,
    SrcAtop,
    DestIn,
    DestOut,
    DestOver,
    DestAtop,
    Xor,
    Lighter,
    Darken,
    Lighten,
    Multiply,
    Screen,
    HardLight,
    Overlay,
    ColorDodge,
    ColorBurn,
    SoftLight,
    Difference,
    Exclusion,
    Hue,
    Saturation,
    Color,
    Luminosity,
}

/// How a paint's color texture is combined with its base color.
#[derive(Clone, Copy, PartialEq, Eq, Structural, Debug)]
pub enum PaintCompositeOp {
    SrcIn,
    DestIn,
}

/// A factor of fixed-function blending.
#[derive(Clone, Copy, PartialEq, Eq, Debug)]
pub enum BlendFactor {
    Zero,
    One,
    SrcAlpha,
    OneMinusSrcAlpha,
    DestAlpha,
    OneMinusDestAlpha,
    DestColor,
}

/// The operation of fixed-function blending.
#[derive(Clone, Copy, PartialEq, Eq, Debug)]
pub enum BlendOp {
    Add,
    Subtract,
    ReverseSubtract,
    Min,
    Max,
}

/// Fixed-function blend state.
#[derive(Clone, Copy, PartialEq, Eq, Debug)]
pub struct BlendState {
    pub src_rgb_factor: BlendFactor,
    pub dest_rgb_factor: BlendFactor,
    pub src_alpha_factor: BlendFactor,
    pub dest_alpha_factor: BlendFactor,
    pub op: BlendOp,
}

pub const COMBINER_CTRL_COLOR_COMBINE_SRC_IN: i32 = 0x1;
pub const COMBINER_CTRL_COLOR_COMBINE_DEST_IN: i32 = 0x2;

pub const COMBINER_CTRL_FILTER_RADIAL_GRADIENT: i32 = 0x1;
pub const COMBINER_CTRL_FILTER_TEXT: i32 = 0x2;
pub const COMBINER_CTRL_FILTER_BLUR: i32 = 0x3;

pub const COMBINER_CTRL_COMPOSITE_NORMAL: i32 = 0x0;
pub const COMBINER_CTRL_COMPOSITE_MULTIPLY: i32 = 0x1;
pub const COMBINER_CTRL_COMPOSITE_SCREEN: i32 = 0x2;
pub const COMBINER_CTRL_COMPOSITE_OVERLAY: i32 = 0x3;
pub const COMBINER_CTRL_COMPOSITE_DARKEN: i32 = 0x4;
pub const COMBINER_CTRL_COMPOSITE_LIGHTEN: i32 = 0x5;
pub const COMBINER_CTRL_COMPOSITE_COLOR_DODGE: i32 = 0x6;
pub const COMBINER_CTRL_COMPOSITE_COLOR_BURN: i32 = 0x7;
pub const COMBINER_CTRL_COMPOSITE_HARD_LIGHT: i32 = 0x8;
pub const COMBINER_CTRL_COMPOSITE_SOFT_LIGHT: i32 = 0x9;
pub const COMBINER_CTRL_COMPOSITE_DIFFERENCE: i32 = 0xa;
pub const COMBINER_CTRL_COMPOSITE_EXCLUSION: i32 = 0xb;
pub const COMBINER_CTRL_COMPOSITE_HUE: i32 = 0xc;
pub const COMBINER_CTRL_COMPOSITE_SATURATION: i32 = 0xd;
pub const COMBINER_CTRL_COMPOSITE_COLOR: i32 = 0xe;
pub const COMBINER_CTRL_COMPOSITE_LUMINOSITY: i32 = 0xf;

pub const COMBINER_CTRL_COLOR_FILTER_SHIFT: i32 = 4;
pub const COMBINER_CTRL_COLOR_COMBINE_SHIFT: i32 = 6;
pub const COMBINER_CTRL_COMPOSITE_SHIFT: i32 = 8;

/// The modes that the shader blends by reading the destination (no fixed-function state).
pub open spec fn reads_destination(mode: BlendMode) -> bool {
    match mode {
        BlendMode::Clear | BlendMode::SrcOver | BlendMode::DestOver | BlendMode::SrcIn
        | BlendMode::DestIn | BlendMode::SrcOut | BlendMode::DestOut | BlendMode::SrcAtop
        | BlendMode::DestAtop | BlendMode::Xor | BlendMode::Lighter | BlendMode::Copy => false,
        _ => true,
    }
}

/// Source and destination factors (equal for color and alpha) of the fixed-function
/// modes; `None` for the modes blended in the shader.
pub open spec fn blend_factors(mode: BlendMode) -> Option<(BlendFactor, BlendFactor)> {
    match mode {
        BlendMode::Clear => Some((BlendFactor::Zero, BlendFactor::Zero)),
        BlendMode::SrcOver => Some((BlendFactor::One, BlendFactor::OneMinusSrcAlpha)),
        BlendMode::DestOver => Some((BlendFactor::OneMinusDestAlpha, BlendFactor::One)),
        BlendMode::SrcIn => Some((BlendFactor::DestAlpha, BlendFactor::Zero)),
        BlendMode::DestIn => Some((BlendFactor::Zero, BlendFactor::SrcAlpha)),
        BlendMode::SrcOut => Some((BlendFactor::OneMinusDestAlpha, BlendFactor::Zero)),
        BlendMode::DestOut => Some((BlendFactor::Zero, BlendFactor::OneMinusSrcAlpha)),
        BlendMode::SrcAtop => Some((BlendFactor::DestAlpha, BlendFactor::OneMinusSrcAlpha)),
        BlendMode::DestAtop => Some((BlendFactor::OneMinusDestAlpha, BlendFactor::SrcAlpha)),
        BlendMode::Xor => Some((BlendFactor::OneMinusDestAlpha, BlendFactor::OneMinusSrcAlpha)),
        BlendMode::Lighter => Some((BlendFactor::One, BlendFactor::One)),
        _ => None,
    }
}

/// The composite operation that the shader applies for each mode.
pub open spec fn composite_ctrl(mode: BlendMode) -> i32 {
    match mode {
        BlendMode::Multiply => COMBINER_CTRL_COMPOSITE_MULTIPLY,
        BlendMode::Darken => COMBINER_CTRL_COMPOSITE_DARKEN,
        BlendMode::Lighten => COMBINER_CTRL_COMPOSITE_LIGHTEN,
        BlendMode::Screen => COMBINER_CTRL_COMPOSITE_SCREEN,
        BlendMode::Overlay => COMBINER_CTRL_COMPOSITE_OVERLAY,
        BlendMode::ColorDodge => COMBINER_CTRL_COMPOSITE_COLOR_DODGE,
        BlendMode::ColorBurn => COMBINER_CTRL_COMPOSITE_COLOR_BURN,
        BlendMode::HardLight => COMBINER_CTRL_COMPOSITE_HARD_LIGHT,
        BlendMode::SoftLight => COMBINER_CTRL_COMPOSITE_SOFT_LIGHT,
        BlendMode::Difference => COMBINER_CTRL_COMPOSITE_DIFFERENCE,
        BlendMode::Exclusion => COMBINER_CTRL_COMPOSITE_EXCLUSION,
        BlendMode::Hue => COMBINER_CTRL_COMPOSITE_HUE,
        BlendMode::Saturation => COMBINER_CTRL_COMPOSITE_SATURATION,
        BlendMode::Color => COMBINER_CTRL_COMPOSITE_COLOR,
        BlendMode::Luminosity => COMBINER_CTRL_COMPOSITE_LUMINOSITY,
        _ => COMBINER_CTRL_COMPOSITE_NORMAL,
    }
}

/// Modes whose result does not depend on the destination where the source is opaque.
pub open spec fn occludes(mode: BlendMode) -> bool {
    mode == BlendMode::SrcOver || mode == BlendMode::Clear
}

/// Modes that change the destination also outside the source's coverage.
pub open spec fn destructive(mode: BlendMode) -> bool {
    match mode {
        BlendMode::Clear | BlendMode::Copy | BlendMode::SrcIn | BlendMode::DestIn
        | BlendMode::SrcOut | BlendMode::DestAtop => true,
        _ => false,
    }
}

/// Whether a blend mode must read the destination framebuffer.
pub trait BlendModeExt: Sized {
    spec fn spec_needs_readable_framebuffer(self) -> bool;

    fn needs_readable_framebuffer(self) -> (r: bool)
        ensures
            r == self.spec_needs_readable_framebuffer(),
    ;
}

impl BlendModeExt for BlendMode {
    open spec fn spec_needs_readable_framebuffer(self) -> bool {
        reads_destination(self)
    }

    fn needs_readable_framebuffer(self) -> (r: bool) {
        match self {
            BlendMode::Clear | BlendMode::SrcOver | BlendMode::DestOver | BlendMode::SrcIn
            | BlendMode::DestIn | BlendMode::SrcOut | BlendMode::DestOut | BlendMode::SrcAtop
            | BlendMode::DestAtop | BlendMode::Xor | BlendMode::Lighter | BlendMode::Copy => false,
            BlendMode::Lighten | BlendMode::Darken | BlendMode::Multiply | BlendMode::Screen
            | BlendMode::HardLight | BlendMode::Overlay | BlendMode::ColorDodge
            | BlendMode::ColorBurn | BlendMode::SoftLight | BlendMode::Difference
            | BlendMode::Exclusion | BlendMode::Hue | BlendMode::Saturation | BlendMode::Color
            | BlendMode::Luminosity => true,
        }
    }
}

/// Blend state with the given factors for color and alpha, adding.
pub open spec fn state_of(src: BlendFactor, dest: BlendFactor) -> BlendState {
    BlendState {
        src_rgb_factor: src,
        dest_rgb_factor: dest,
        src_alpha_factor: src,
        dest_alpha_factor: dest,
        op: BlendOp::Add,
    }
}

fn factors(src: BlendFactor, dest: BlendFactor) -> (r: BlendState)
    ensures
        r == state_of(src, dest),
{
    BlendState {
        src_rgb_factor: src,
        dest_rgb_factor: dest,
        src_alpha_factor: src,
        dest_alpha_factor: dest,
        op: BlendOp::Add,
    }
}

impl BlendMode {
    /// The fixed-function blend state of this mode, or `None` where the shader blends.
    pub fn to_blend_state(self) -> (r: Option<BlendState>)
        ensures
            r.is_none() == blend_factors(self).is_none(),
            r.is_some() ==> r.unwrap() == state_of(
                blend_factors(self).unwrap().0,
                blend_factors(self).unwrap().1,
            ),
    {
        match self {
            BlendMode::Clear => Some(factors(BlendFactor::Zero, BlendFactor::Zero)),
            BlendMode::SrcOver => Some(factors(BlendFactor::One, BlendFactor::OneMinusSrcAlpha)),
            BlendMode::DestOver => Some(factors(BlendFactor::OneMinusDestAlpha, BlendFactor::One)),
            BlendMode::SrcIn => Some(factors(BlendFactor::DestAlpha, BlendFactor::Zero)),
            BlendMode::DestIn => Some(factors(BlendFactor::Zero, BlendFactor::SrcAlpha)),
            BlendMode::SrcOut => Some(factors(BlendFactor::OneMinusDestAlpha, BlendFactor::Zero)),
            BlendMode::DestOut => Some(factors(BlendFactor::Zero, BlendFactor::OneMinusSrcAlpha)),
            BlendMode::SrcAtop => Some(
                factors(BlendFactor::DestAlpha, BlendFactor::OneMinusSrcAlpha),
            ),
            BlendMode::DestAtop => Some(
                factors(BlendFactor::OneMinusDestAlpha, BlendFactor::SrcAlpha),
            ),
            BlendMode::Xor => Some(
                factors(BlendFactor::OneMinusDestAlpha, BlendFactor::OneMinusSrcAlpha),
            ),
            BlendMode::Lighter => Some(factors(BlendFactor::One, BlendFactor::One)),
            BlendMode::Copy | BlendMode::Darken | BlendMode::Lighten | BlendMode::Multiply
            | BlendMode::Screen | BlendMode::HardLight | BlendMode::Overlay
            | BlendMode::ColorDodge | BlendMode::ColorBurn | BlendMode::SoftLight
            | BlendMode::Difference | BlendMode::Exclusion | BlendMode::Hue
            | BlendMode::Saturation | BlendMode::Color | BlendMode::Luminosity => None,
        }
    }

    /// The shader's composite operation for this mode.
    pub fn to_composite_ctrl(&self) -> (r: i32)
        ensures
            r == composite_ctrl(*self),
    {
        match *self {
            BlendMode::SrcOver | BlendMode::SrcAtop | BlendMode::DestOver | BlendMode::DestOut
            | BlendMode::Xor | BlendMode::Lighter | BlendMode::Clear | BlendMode::Copy
            | BlendMode::SrcIn | BlendMode::SrcOut | BlendMode::DestIn
            | BlendMode::DestAtop => COMBINER_CTRL_COMPOSITE_NORMAL,
            BlendMode::Multiply => COMBINER_CTRL_COMPOSITE_MULTIPLY,
            BlendMode::Darken => COMBINER_CTRL_COMPOSITE_DARKEN,
            BlendMode::Lighten => COMBINER_CTRL_COMPOSITE_LIGHTEN,
            BlendMode::Screen => COMBINER_CTRL_COMPOSITE_SCREEN,
            BlendMode::Overlay => COMBINER_CTRL_COMPOSITE_OVERLAY,
            BlendMode::ColorDodge => COMBINER_CTRL_COMPOSITE_COLOR_DODGE,
            BlendMode::ColorBurn => COMBINER_CTRL_COMPOSITE_COLOR_BURN,
            BlendMode::HardLight => COMBINER_CTRL_COMPOSITE_HARD_LIGHT,
            BlendMode::SoftLight => COMBINER_CTRL_COMPOSITE_SOFT_LIGHT,
            BlendMode::Difference => COMBINER_CTRL_COMPOSITE_DIFFERENCE,
            BlendMode::Exclusion => COMBINER_CTRL_COMPOSITE_EXCLUSION,
            BlendMode::Hue => COMBINER_CTRL_COMPOSITE_HUE,
            BlendMode::Saturation => COMBINER_CTRL_COMPOSITE_SATURATION,
            BlendMode::Color => COMBINER_CTRL_COMPOSITE_COLOR,
            BlendMode::Luminosity => COMBINER_CTRL_COMPOSITE_LUMINOSITY,
        }
    }

    /// Whether an opaque path in this mode hides what lies beneath it.
    pub fn occludes_backdrop(self) -> (r: bool)
        ensures
            r == occludes(self),
    {
        match self {
            BlendMode::SrcOver | BlendMode::Clear => true,
            _ => false,
        }
    }

    /// Whether this mode changes the destination outside the source's coverage.
    pub fn is_destructive(self) -> (r: bool)
        ensures
            r == destructive(self),
    {
        match self {
            BlendMode::Clear | BlendMode::Copy | BlendMode::SrcIn | BlendMode::DestIn
            | BlendMode::SrcOut | BlendMode::DestAtop => true,
            _ => false,
        }
    }
}

/// The combiner control word of a tile batch: the color combine mode, the filter and
/// the composite operation, each in its own bits.
pub open spec fn combiner_ctrl(combine: i32, filter: i32, composite: i32) -> int {
    combine * 64 + filter * 16 + composite * 256
}

/// Packs the combiner control word of a batch from the paint's combine mode (0 for
/// none), the filter code and the blend mode.
pub fn combiner_ctrl_word(combine_mode: i32, filter: i32, blend_mode: BlendMode) -> (r: i32)
    requires
        0 <= combine_mode <= 3,
        0 <= filter <= 3,
    ensures
        r as int == combiner_ctrl(combine_mode, filter, composite_ctrl(blend_mode)),
{
    let composite = blend_mode.to_composite_ctrl();
    let mut ctrl: i32 = 0;
    ctrl = ctrl | (combine_mode << COMBINER_CTRL_COLOR_COMBINE_SHIFT);
    ctrl = ctrl | (composite << COMBINER_CTRL_COMPOSITE_SHIFT);
    ctrl = ctrl | (filter << COMBINER_CTRL_COLOR_FILTER_SHIFT);
    proof {
        assert(0 <= composite <= 15);
        let c = combine_mode;
        let f = filter;
        let k = composite;
        assert(((0i32 | (c << 6i32)) | (k << 8i32)) | (f << 4i32) == c * 64 + k * 256 + f * 16) by (bit_vector)
            requires
                0 <= c <= 3,
                0 <= f <= 3,
                0 <= k <= 15,
        ;
    }
    ctrl
}

impl PaintCompositeOp {
    /// The shader's color combine mode for this operation.
    pub fn to_combine_mode(self) -> (r: i32)
        ensures
            r == (match self {
                PaintCompositeOp::DestIn => COMBINER_CTRL_COLOR_COMBINE_DEST_IN,
                PaintCompositeOp::SrcIn => COMBINER_CTRL_COLOR_COMBINE_SRC_IN,
            }),
    {
        match self {
            PaintCompositeOp::DestIn => COMBINER_CTRL_COLOR_COMBINE_DEST_IN,
            PaintCompositeOp::SrcIn => COMBINER_CTRL_COLOR_COMBINE_SRC_IN,
        }
    }
}

} // verus!
