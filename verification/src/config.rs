//! Plain configuration and input-bundle types: the global settings the
//! core consumes, the enums naming segments and cost strategies, the
//! style, icon and color shapes the rendering layer passes around, and
//! the model/workspace fields of the rendering layer's input.

use vstd::prelude::*;

verus! {

/// Global settings of the core: the context window limit used by the
/// usage display.
#[derive(Debug, Clone, PartialEq)]
pub struct GlobalConfig {
    pub context_limit: u32,
}

/// The context limit assumed when none is configured.
pub fn default_context_limit() -> (r: u32)
    ensures
        r == 200000,
{
    200000
}

impl Default for GlobalConfig {
    /// The default configuration: a 200000-token context limit.
    fn default() -> (r: Self)
        ensures
            r.context_limit == 200000,
    {
        GlobalConfig { context_limit: 200000 }
    }
}

impl GlobalConfig {
    /// A configuration is valid exactly when its context limit is
    /// positive; a zero limit is rejected with a message.
    pub fn validate(&self) -> (r: Result<(), String>)
        ensures
            self.context_limit == 0 ==> (r matches Err(m) && m@
                == "Context limit must be greater than 0"@),
            self.context_limit > 0 ==> r is Ok,
    {
        if self.context_limit == 0 {
            return Err("Context limit must be greater than 0".to_owned());
        }
        Ok(())
    }
}

/// The default for settings that are on unless switched off.
pub fn default_true() -> (r: bool)
    ensures
        r,
{
    true
}

/// How the status line is styled.
#[derive(Debug, Clone, Copy, PartialEq, Eq, Structural)]
pub enum StyleMode {
    Plain,
    NerdFont,
    Powerline,
}

/// Style settings of the rendering layer.
#[derive(Debug, Clone, PartialEq)]
pub struct StyleConfig {
    pub mode: StyleMode,
    pub separator: String,
}

/// A segment's icons in both icon vocabularies.
#[derive(Debug, Clone, PartialEq)]
pub struct IconConfig {
    pub plain: String,
    pub nerd_font: String,
}

/// A terminal color in any of the three encodings.
#[derive(Debug, Clone)]
pub enum AnsiColor {
    Color16 { c16: u8 },
    Color256 { c256: u8 },
    Rgb { r: u8, g: u8, b: u8 },
}

/// What equality of colors means: same encoding, same components.
pub open spec fn spec_color_eq(a: AnsiColor, b: AnsiColor) -> bool {
    match (a, b) {
        (AnsiColor::Color16 { c16: x }, AnsiColor::Color16 { c16: y }) => x == y,
        (AnsiColor::Color256 { c256: x }, AnsiColor::Color256 { c256: y }) => x == y,
        (
            AnsiColor::Rgb { r: r1, g: g1, b: b1 },
            AnsiColor::Rgb { r: r2, g: g2, b: b2 },
        ) => r1 == r2 && g1 == g2 && b1 == b2,
        _ => false,
    }
}

impl PartialEq for AnsiColor {
    /// Colors are equal when they use the same encoding with the same
    /// components.
    fn eq(&self, other: &Self) -> (r: bool) {
        match (self, other) {
            (AnsiColor::Color16 { c16: a }, AnsiColor::Color16 { c16: b }) => a == b,
            (AnsiColor::Color256 { c256: a }, AnsiColor::Color256 { c256: b }) => a == b,
            (
                AnsiColor::Rgb { r: r1, g: g1, b: b1 },
                AnsiColor::Rgb { r: r2, g: g2, b: b2 },
            ) => r1 == r2 && g1 == g2 && b1 == b2,
            _ => false,
        }
    }
}

impl vstd::std_specs::cmp::PartialEqSpecImpl for AnsiColor {
    open spec fn obeys_eq_spec() -> bool {
        true
    }

    open spec fn eq_spec(&self, other: &AnsiColor) -> bool {
        spec_color_eq(*self, *other)
    }
}

/// Text style settings of a segment.
#[derive(Debug, Clone, PartialEq)]
pub struct TextStyleConfig {
    pub text_bold: bool,
}

impl Default for TextStyleConfig {
    /// Text is not bold unless asked for.
    fn default() -> (r: Self)
        ensures
            !r.text_bold,
    {
        TextStyleConfig { text_bold: false }
    }
}

/// Color settings of a segment.
#[derive(Debug, Clone, PartialEq)]
pub struct ColorConfig {
    pub icon: Option<AnsiColor>,
    pub text: Option<AnsiColor>,
    pub background: Option<AnsiColor>,
}

/// The segments the status line can show.
#[derive(Debug, Clone, Copy, PartialEq, Eq, Hash, Structural)]
pub enum SegmentId {
    Model,
    Directory,
    Git,
    Usage,
    Update,
    Cost,
    BurnRate,
}

/// Where the cost segment takes its session cost from.
#[derive(Debug, Clone, Copy, PartialEq, Eq, Structural)]
pub enum CostSource {
    Auto,
    Native,
    Calculated,
    Both,
}

impl Default for CostSource {
    /// By default the externally supplied cost is preferred, with the
    /// calculated cost as the fallback.
    fn default() -> (r: Self)
        ensures
            r is Auto,
    {
        CostSource::Auto
    }
}

/// Which segments are enabled, in the older flat shape.
#[derive(Debug, Clone, PartialEq)]
pub struct SegmentsConfig {
    pub directory: bool,
    pub git: bool,
    pub model: bool,
    pub usage: bool,
    pub cost: bool,
    pub burn_rate: bool,
}

/// The model named in the rendering layer's input.
#[derive(Debug, Clone, PartialEq)]
pub struct Model {
    pub display_name: String,
}

/// The workspace named in the rendering layer's input.
#[derive(Debug, Clone, PartialEq)]
pub struct Workspace {
    pub current_dir: String,
}

} // verus!
