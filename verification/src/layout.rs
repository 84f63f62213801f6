//! Layout of styled trees into boxes.
//!
//! The types are generic in the number that lengths are given in, so that the
//! decisions of layout are made here whatever computes with the lengths.
use vstd::prelude::*;

use crate::text;

pub mod areas;
pub mod boxes;
pub mod cache;
pub mod flex;
pub mod flow;
pub mod grid;
pub mod hits;
pub mod modes;
pub mod table;
pub mod tracks;
pub mod tree;
pub mod words;

verus! {

/// A rectangle.
#[derive(Copy, Clone, Debug, Default, PartialEq)]
pub struct Rect<N> {
    pub x: N,
    pub y: N,
    pub w: N,
    pub h: N,
}

/// A linear gradient between two colors. An angle of 0 points up, one of 90 to
/// the right.
#[derive(Copy, Clone, Debug, PartialEq)]
pub struct LinearGradientSpec<N> {
    pub from: Color,
    pub to: Color,
    pub angle_deg: N,
}

/// One color of a gradient, at a fraction of its extent or at a length, or
/// evenly distributed.
#[derive(Copy, Clone, Debug, PartialEq)]
pub struct GradientStopSpec<N> {
    pub color: Color,
    pub pos_frac: Option<N>,
    pub pos_px: Option<N>,
}

#[derive(Copy, Clone, Debug, PartialEq, Eq, Structural)]
pub enum GradRadialShape {
    Circle,
    Ellipse,
}

#[derive(Copy, Clone, Debug, PartialEq)]
pub enum GradRadialSize<N> {
    ClosestSide,
    FarthestSide,
    ClosestCorner,
    FarthestCorner,
    /// Radii in pixels or in percent of the box.
    Explicit { rx_px: Option<N>, ry_px: Option<N>, rx_pct: Option<N>, ry_pct: Option<N> },
}

/// Where the center of a gradient lies on one axis.
#[derive(Copy, Clone, Debug, PartialEq)]
pub enum GradPosAxis<N> {
    Px(N),
    Pct(N),
}

/// A gradient with any number of stops.
#[derive(Clone, Debug, PartialEq)]
pub enum GradientSpec<N> {
    Linear { angle_deg: N, stops: Vec<GradientStopSpec<N>>, repeating: bool },
    Radial {
        shape: GradRadialShape,
        size: GradRadialSize<N>,
        center: Option<(GradPosAxis<N>, GradPosAxis<N>)>,
        stops: Vec<GradientStopSpec<N>>,
        repeating: bool,
    },
    Conic {
        from_deg: N,
        center: Option<(GradPosAxis<N>, GradPosAxis<N>)>,
        stops: Vec<GradientStopSpec<N>>,
        repeating: bool,
    },
}

/// The shape that a box is clipped to.
#[derive(Clone, Debug, PartialEq)]
pub enum ClipShape<N> {
    Inset { top_px: N, right_px: N, bottom_px: N, left_px: N },
    Circle { radius_px: N, cx_px: N, cy_px: N },
    Polygon(Vec<(N, N)>),
}

/// One filter operation.
#[derive(Copy, Clone, Debug, PartialEq)]
pub enum FilterEffect<N> {
    Blur(N),
    Brightness(N),
    Contrast(N),
    Grayscale(N),
    Invert(N),
    Sepia(N),
    Saturate(N),
    HueRotate(N),
    Opacity(N),
    DropShadow(BoxShadow<N>),
}

/// How a box is blended with what lies beneath it.
#[derive(Copy, Clone, Debug, PartialEq, Eq, Structural)]
pub enum BlendMode {
    Normal,
    Multiply,
    Screen,
    Overlay,
    Darken,
    Lighten,
    ColorDodge,
    ColorBurn,
    HardLight,
    SoftLight,
    Difference,
    Exclusion,
    Hue,
    Saturation,
    Color,
    Luminosity,
}

impl Default for BlendMode {
    fn default() -> (r: Self)
        ensures
            r == BlendMode::Normal,
    {
        BlendMode::Normal
    }
}

/// The blend mode of a keyword, which is given without surrounding white space
/// and in lower case. Unknown keywords mean no blending.
pub open spec fn blend_mode_of(word: Seq<char>) -> BlendMode {
    if word == "multiply"@ {
        BlendMode::Multiply
    } else if word == "screen"@ {
        BlendMode::Screen
    } else if word == "overlay"@ {
        BlendMode::Overlay
    } else if word == "darken"@ {
        BlendMode::Darken
    } else if word == "lighten"@ {
        BlendMode::Lighten
    } else if word == "color-dodge"@ {
        BlendMode::ColorDodge
    } else if word == "color-burn"@ {
        BlendMode::ColorBurn
    } else if word == "hard-light"@ {
        BlendMode::HardLight
    } else if word == "soft-light"@ {
        BlendMode::SoftLight
    } else if word == "difference"@ {
        BlendMode::Difference
    } else if word == "exclusion"@ {
        BlendMode::Exclusion
    } else if word == "hue"@ {
        BlendMode::Hue
    } else if word == "saturation"@ {
        BlendMode::Saturation
    } else if word == "color"@ {
        BlendMode::Color
    } else if word == "luminosity"@ {
        BlendMode::Luminosity
    } else {
        BlendMode::Normal
    }
}

impl BlendMode {
    /// Parses a keyword, in upper or lower case and with white space around it.
    pub fn from_str(s: &str) -> (r: Self)
        ensures
            r == blend_mode_of(text::lowered(text::trim(s@))),
    {
        let chars: Vec<char> = text::chars_of(s);
        let word: Vec<char> = text::lowercase(text::trimmed(chars.as_slice()));
        let w: &[char] = word.as_slice();
        if text::is_text(w, "multiply") {
            BlendMode::Multiply
        } else if text::is_text(w, "screen") {
            BlendMode::Screen
        } else if text::is_text(w, "overlay") {
            BlendMode::Overlay
        } else if text::is_text(w, "darken") {
            BlendMode::Darken
        } else if text::is_text(w, "lighten") {
            BlendMode::Lighten
        } else if text::is_text(w, "color-dodge") {
            BlendMode::ColorDodge
        } else if text::is_text(w, "color-burn") {
            BlendMode::ColorBurn
        } else if text::is_text(w, "hard-light") {
            BlendMode::HardLight
        } else if text::is_text(w, "soft-light") {
            BlendMode::SoftLight
        } else if text::is_text(w, "difference") {
            BlendMode::Difference
        } else if text::is_text(w, "exclusion") {
            BlendMode::Exclusion
        } else if text::is_text(w, "hue") {
            BlendMode::Hue
        } else if text::is_text(w, "saturation") {
            BlendMode::Saturation
        } else if text::is_text(w, "color") {
            BlendMode::Color
        } else if text::is_text(w, "luminosity") {
            BlendMode::Luminosity
        } else {
            BlendMode::Normal
        }
    }

    pub fn is_normal(self) -> (r: bool)
        ensures
            r == (self == BlendMode::Normal),
    {
        self == BlendMode::Normal
    }
}

/// A shadow of a box or of its text. The spread is added to the sides of the
/// box before it is blurred; an inset shadow is drawn inside the box.
#[derive(Copy, Clone, Debug, PartialEq)]
pub struct BoxShadow<N> {
    pub offset_x_px: N,
    pub offset_y_px: N,
    pub blur_px: N,
    pub spread_px: N,
    pub color: Color,
    pub inset: bool,
}

/// A length on each side of a box.
#[derive(Copy, Clone, Debug, Default, PartialEq)]
pub struct EdgeSizes<N> {
    pub top: N,
    pub right: N,
    pub bottom: N,
    pub left: N,
}

/// A side of a background image: pixels, or percent of the area it is placed in.
#[derive(Clone, Debug, PartialEq)]
pub enum BgLength<N> {
    Px(N),
    Percent(N),
}

/// The size of a background image. A missing side keeps the aspect ratio.
#[derive(Clone, Debug, PartialEq)]
pub enum BgSize<N> {
    Cover,
    Contain,
    Explicit(Option<BgLength<N>>, Option<BgLength<N>>),
}

/// The sides of a box whose margin is `auto`.
#[derive(Copy, Clone, Debug, PartialEq, Eq, Structural)]
pub struct EdgeAuto {
    pub top: bool,
    pub right: bool,
    pub bottom: bool,
    pub left: bool,
}

impl Default for EdgeAuto {
    fn default() -> (r: Self)
        ensures
            !r.top && !r.right && !r.bottom && !r.left,
    {
        EdgeAuto { top: false, right: false, bottom: false, left: false }
    }
}

#[derive(Copy, Clone, Debug, PartialEq, Eq, Structural)]
pub struct Color {
    pub r: u8,
    pub g: u8,
    pub b: u8,
    pub a: u8,
}

impl Default for Color {
    fn default() -> (r: Self)
        ensures
            r.r == 0 && r.g == 0 && r.b == 0 && r.a == 0,
    {
        Color { r: 0, g: 0, b: 0, a: 0 }
    }
}

/// The color that stands for `currentColor`, until the color of the text is
/// known.
pub open spec fn current_color() -> Color {
    Color { r: 0, g: 1, b: 0, a: 0 }
}

impl Color {
    /// The color that stands for `currentColor`.
    pub fn current() -> (r: Self)
        ensures
            r == current_color(),
    {
        Color { r: 0, g: 1, b: 0, a: 0 }
    }

    pub fn is_current_color(self) -> (r: bool)
        ensures
            r == (self == current_color()),
    {
        self == Color::current()
    }
}

#[derive(Clone, Copy, Debug, PartialEq, Eq, Structural)]
pub enum BorderStyle {
    NoBorder,
    Hidden,
    Solid,
    Dashed,
    Dotted,
    Double,
}

impl Default for BorderStyle {
    fn default() -> (r: Self)
        ensures
            r == BorderStyle::Solid,
    {
        BorderStyle::Solid
    }
}

/// Styles that mean that there is no border.
pub open spec fn is_no_border(s: BorderStyle) -> bool {
    s == BorderStyle::NoBorder || s == BorderStyle::Hidden
}

impl BorderStyle {
    /// Whether there is no border, so that its width is 0.
    pub fn is_none(&self) -> (r: bool)
        ensures
            r == is_no_border(*self),
    {
        *self == BorderStyle::NoBorder || *self == BorderStyle::Hidden
    }
}

/// What a box stands for.
#[derive(Clone, Debug)]
pub enum BoxKind {
    Block { tag: String },
    Anonymous,
    Text(String),
}

/// What a styled node stands for.
#[derive(Clone, Debug)]
pub enum StyledKind {
    Element { tag: String },
    Text(String),
}

/// How the content of a replaced element fills its box.
#[derive(Copy, Clone, Debug, PartialEq, Eq, Structural)]
pub enum ObjectFit {
    Fill,
    Contain,
    Cover,
    Unscaled,
    ScaleDown,
}

/// A decoded image.
#[derive(Debug)]
pub struct EmbeddedImage {
    pub width: u32,
    pub height: u32,
    pub pixels: Vec<u32>,
}

#[derive(Copy, Clone, Debug, PartialEq, Eq, Structural)]
pub enum Display {
    Block,
    Inline,
    InlineBlock,
    Flex,
    InlineFlex,
    Grid,
    InlineGrid,
    Table,
    InlineTable,
    TableRow,
    TableCell,
    TableRowGroup,
    NotShown,
}

#[derive(Copy, Clone, Debug, PartialEq, Eq, Structural)]
pub enum Position {
    Static,
    Relative,
    Absolute,
    Fixed,
    Sticky,
}

impl Default for Position {
    fn default() -> (r: Self)
        ensures
            r == Position::Static,
    {
        Position::Static
    }
}

/// Boxes that take part in normal flow.
pub open spec fn flows(p: Position) -> bool {
    p != Position::Absolute && p != Position::Fixed
}

impl Position {
    /// Whether a box takes part in normal flow.
    pub fn is_in_flow(self) -> (r: bool)
        ensures
            r == flows(self),
    {
        self != Position::Absolute && self != Position::Fixed
    }

    /// Whether absolutely positioned boxes inside are placed against this one:
    /// it is not static.
    pub fn establishes_abs_containing_block(self) -> (r: bool)
        ensures
            r == (self != Position::Static),
    {
        self != Position::Static
    }
}

/// What happens to content that does not fit.
#[derive(Copy, Clone, Debug, PartialEq, Eq, Structural)]
pub enum Overflow {
    Visible,
    Hidden,
    Clip,
    Scroll,
    Auto,
}

impl Default for Overflow {
    fn default() -> (r: Self)
        ensures
            r == Overflow::Visible,
    {
        Overflow::Visible
    }
}

/// Values that make a region that scrolls by itself.
pub open spec fn scrolls(o: Overflow) -> bool {
    o == Overflow::Scroll || o == Overflow::Auto
}

impl Overflow {
    /// Whether content is clipped to the padding box.
    pub fn clips(self) -> (r: bool)
        ensures
            r == (self != Overflow::Visible),
    {
        self != Overflow::Visible
    }

    /// Whether the region scrolls by itself.
    pub fn is_scrollable(self) -> (r: bool)
        ensures
            r == scrolls(self),
    {
        self == Overflow::Scroll || self == Overflow::Auto
    }
}

/// Regions that scroll are clipped.
pub proof fn scrolling_regions_are_clipped(o: Overflow)
    requires
        scrolls(o),
    ensures
        o != Overflow::Visible,
{
}

#[derive(Copy, Clone, Debug, PartialEq, Eq, Structural)]
pub enum BackgroundRepeat {
    Repeat,
    NoRepeat,
    RepeatX,
    RepeatY,
}

impl Default for BackgroundRepeat {
    fn default() -> (r: Self)
        ensures
            r == BackgroundRepeat::Repeat,
    {
        BackgroundRepeat::Repeat
    }
}

/// One axis of a position: pixels, or percent of what the box leaves over.
#[derive(Copy, Clone, Debug, PartialEq)]
pub enum BgPos<N> {
    Px(N),
    Pct(N),
}

/// The side that a box floats to.
#[derive(Copy, Clone, Debug, PartialEq, Eq, Structural)]
pub enum FloatSide {
    NotFloated,
    Left,
    Right,
}

impl Default for FloatSide {
    fn default() -> (r: Self)
        ensures
            r == FloatSide::NotFloated,
    {
        FloatSide::NotFloated
    }
}

/// The floats that a box is placed below.
#[derive(Copy, Clone, Debug, PartialEq, Eq, Structural)]
pub enum ClearMode {
    NoClear,
    Left,
    Right,
    Both,
}

impl Default for ClearMode {
    fn default() -> (r: Self)
        ensures
            r == ClearMode::NoClear,
    {
        ClearMode::NoClear
    }
}

/// Whether a box is placed below the floats of a side.
pub open spec fn clears(clear: ClearMode, side: FloatSide) -> bool {
    match clear {
        ClearMode::NoClear => false,
        ClearMode::Left => side == FloatSide::Left,
        ClearMode::Right => side == FloatSide::Right,
        ClearMode::Both => side != FloatSide::NotFloated,
    }
}

impl ClearMode {
    /// Whether a box is placed below the floats of a side.
    pub fn applies_to(self, side: FloatSide) -> (r: bool)
        ensures
            r == clears(self, side),
    {
        match self {
            ClearMode::NoClear => false,
            ClearMode::Left => side == FloatSide::Left,
            ClearMode::Right => side == FloatSide::Right,
            ClearMode::Both => side != FloatSide::NotFloated,
        }
    }
}

#[derive(Copy, Clone, Debug, PartialEq, Eq, Structural)]
pub enum VerticalAlign {
    Baseline,
    Sub,
    Super,
    Top,
    Middle,
    Bottom,
    TextTop,
    TextBottom,
}

impl Default for VerticalAlign {
    fn default() -> (r: Self)
        ensures
            r == VerticalAlign::Baseline,
    {
        VerticalAlign::Baseline
    }
}

/// How many times a repeated track list is repeated: as often as its items
/// need, or as often as there is room.
#[derive(Copy, Clone, Debug, PartialEq, Eq, Structural)]
pub enum AutoRepeatMode {
    Fit,
    Fill,
}

#[derive(Copy, Clone, Debug, PartialEq)]
pub enum AutoRepeatTrack<N> {
    Px(N),
    Pct(N),
    Fr(N),
    Auto,
}

#[derive(Clone, Debug, PartialEq)]
pub struct AutoRepeat<N> {
    pub mode: AutoRepeatMode,
    pub min_px: N,
    pub tracks: Vec<AutoRepeatTrack<N>>,
}

#[derive(Copy, Clone, Debug, PartialEq)]
pub enum MinMaxBound<N> {
    Px(N),
    Pct(N),
    Fr(N),
    Auto,
}

/// A column or row of a grid.
#[derive(Clone, Debug, PartialEq)]
pub enum GridTrack<N> {
    Px(N),
    Pct(N),
    /// A share of the space that is left over.
    Fr(N),
    /// Sized like one share.
    Auto,
    AutoRepeat(AutoRepeat<N>),
    /// Takes its tracks from the grid around it; sized like `Auto`.
    Subgrid,
    MinMax { min: MinMaxBound<N>, max: MinMaxBound<N> },
}

#[derive(Copy, Clone, Debug, PartialEq, Eq, Structural)]
pub enum FlexDirection {
    Row,
    Column,
    RowReverse,
    ColumnReverse,
}

impl Default for FlexDirection {
    fn default() -> (r: Self)
        ensures
            r == FlexDirection::Row,
    {
        FlexDirection::Row
    }
}

#[derive(Copy, Clone, Debug, PartialEq, Eq, Structural)]
pub enum FlexWrap {
    NoWrap,
    Wrap,
    WrapReverse,
}

impl Default for FlexWrap {
    fn default() -> (r: Self)
        ensures
            r == FlexWrap::NoWrap,
    {
        FlexWrap::NoWrap
    }
}

#[derive(Copy, Clone, Debug, PartialEq, Eq, Structural)]
pub enum JustifyContent {
    Start,
    End,
    Center,
    SpaceBetween,
    SpaceAround,
    SpaceEvenly,
}

impl Default for JustifyContent {
    fn default() -> (r: Self)
        ensures
            r == JustifyContent::Start,
    {
        JustifyContent::Start
    }
}

#[derive(Copy, Clone, Debug, PartialEq, Eq, Structural)]
pub enum AlignItems {
    Stretch,
    Start,
    End,
    Center,
    Baseline,
}

impl Default for AlignItems {
    fn default() -> (r: Self)
        ensures
            r == AlignItems::Stretch,
    {
        AlignItems::Stretch
    }
}

/// A sum of pixels and percent of a container.
#[derive(Copy, Clone, Debug, PartialEq)]
pub struct CalcLengthSpec<N> {
    pub px: N,
    pub pct: N,
}

/// A preferred length between two bounds; the lower one wins.
#[derive(Copy, Clone, Debug, PartialEq)]
pub struct ClampLengthSpec<N> {
    pub min: CalcLengthSpec<N>,
    pub preferred: CalcLengthSpec<N>,
    pub max: CalcLengthSpec<N>,
}

/// A length that is resolved against the size of a container.
#[derive(Copy, Clone, Debug, PartialEq)]
pub enum LengthSpec<N> {
    Px(N),
    Pct(N),
    Calc(CalcLengthSpec<N>),
    Clamp(ClampLengthSpec<N>),
}

#[derive(Copy, Clone, Debug, PartialEq, Eq, Structural)]
pub enum TextAlign {
    Left,
    Center,
    Right,
    Justify,
}

#[derive(Copy, Clone, Debug, PartialEq, Eq, Structural)]
pub enum TextTransform {
    Unchanged,
    Uppercase,
    Lowercase,
    Capitalize,
}

/// A container that scrolls: its identity, where it stands and how far it goes.
#[derive(Copy, Clone, Debug, PartialEq)]
pub struct ScrollTarget<N> {
    pub node_id: u64,
    pub cur_left: N,
    pub cur_top: N,
    pub max_left: N,
    pub max_top: N,
}

/// The keyword of a blend mode.
pub open spec fn keyword_of(mode: BlendMode) -> Seq<char> {
    match mode {
        BlendMode::Normal => "normal"@,
        BlendMode::Multiply => "multiply"@,
        BlendMode::Screen => "screen"@,
        BlendMode::Overlay => "overlay"@,
        BlendMode::Darken => "darken"@,
        BlendMode::Lighten => "lighten"@,
        BlendMode::ColorDodge => "color-dodge"@,
        BlendMode::ColorBurn => "color-burn"@,
        BlendMode::HardLight => "hard-light"@,
        BlendMode::SoftLight => "soft-light"@,
        BlendMode::Difference => "difference"@,
        BlendMode::Exclusion => "exclusion"@,
        BlendMode::Hue => "hue"@,
        BlendMode::Saturation => "saturation"@,
        BlendMode::Color => "color"@,
        BlendMode::Luminosity => "luminosity"@,
    }
}

/// Every blend mode is read from its keyword; a text that is no keyword is not blended.
pub proof fn keywords_name_their_mode(mode: BlendMode, other: Seq<char>)
    ensures
        blend_mode_of(keyword_of(mode)) == mode,
        (forall|m: BlendMode| other != #[trigger] keyword_of(m)) ==> blend_mode_of(other)
            == BlendMode::Normal,
{
    reveal_strlit("normal");
    reveal_strlit("multiply");
    reveal_strlit("screen");
    reveal_strlit("overlay");
    reveal_strlit("darken");
    reveal_strlit("lighten");
    reveal_strlit("color-dodge");
    reveal_strlit("color-burn");
    reveal_strlit("hard-light");
    reveal_strlit("soft-light");
    reveal_strlit("difference");
    reveal_strlit("exclusion");
    reveal_strlit("hue");
    reveal_strlit("saturation");
    reveal_strlit("color");
    reveal_strlit("luminosity");
    assert("normal"@.len() == 6 && "normal"@[0] == 'n');
    assert("multiply"@.len() == 8);
    assert("screen"@.len() == 6 && "screen"@[0] == 's');
    assert("overlay"@.len() == 7 && "overlay"@[0] == 'o');
    assert("darken"@.len() == 6 && "darken"@[0] == 'd');
    assert("lighten"@.len() == 7 && "lighten"@[0] == 'l');
    assert("color-dodge"@.len() == 11);
    assert("color-burn"@.len() == 10 && "color-burn"@[0] == 'c');
    assert("hard-light"@.len() == 10 && "hard-light"@[0] == 'h');
    assert("soft-light"@.len() == 10 && "soft-light"@[0] == 's' && "soft-light"@[1] == 'o');
    assert("difference"@.len() == 10 && "difference"@[0] == 'd');
    assert("exclusion"@.len() == 9);
    assert("hue"@.len() == 3);
    assert("saturation"@.len() == 10 && "saturation"@[0] == 's' && "saturation"@[1] == 'a');
    assert("color"@.len() == 5);
    assert("luminosity"@.len() == 10 && "luminosity"@[0] == 'l');
    if forall|m: BlendMode| other != #[trigger] keyword_of(m) {
        let found = blend_mode_of(other);
        assert(other != keyword_of(found));
    }
}

/// A box that clears both sides is placed below the floats of either; one that clears a
/// side is placed below those of that side alone.
pub proof fn sides_are_cleared(clear: ClearMode, side: FloatSide)
    ensures
        clears(ClearMode::Both, side) == (clears(ClearMode::Left, side) || clears(
            ClearMode::Right,
            side,
        )),
        clears(ClearMode::Left, side) == (side == FloatSide::Left),
        clears(ClearMode::Right, side) == (side == FloatSide::Right),
        !clears(ClearMode::NoClear, side),
        !clears(clear, FloatSide::NotFloated),
{
}

/// Boxes leave the flow by being placed against their container or the window, and in
/// no other way; regions scroll where content may be scrolled to; there is no border
/// where its style says so.
pub proof fn styles_mean_what_they_say(p: Position, o: Overflow, s: BorderStyle)
    ensures
        !flows(p) == (p is Absolute || p is Fixed),
        scrolls(o) == (o is Scroll || o is Auto),
        is_no_border(s) == (s is NoBorder || s is Hidden),
{
}

} // verus!
