//! Diagram kinds, the layout and colour settings of a diagram, and the
//! built-in style sheet.

use crate::number::Num;
use vstd::prelude::*;

verus! {

/// The built-in style sheet: the lowest layer of the cascade.
pub const DEFAULT_STYLES_CSS: &'static str = ".diagram-background { fill: #FFFFFF; }
.diagram-text { font-family: 'Segoe UI', Roboto, 'Helvetica Neue', Arial, sans-serif; font-size: 12px; fill: #333333; }
.participant {
  fill: #F0F0F0;
  stroke: #333333;
  stroke-width: 1.5;
}
.participant-text { font-family: 'Segoe UI', Roboto, 'Helvetica Neue', Arial, sans-serif; font-size: 12px; font-weight: bold; fill: #333333; text-anchor: middle; }
.lifeline { stroke: #666666; stroke-width: 1; stroke-dasharray: 5,5; }
.message { fill: none; stroke: #333333; stroke-width: 1.5; }
.message-dashed { stroke-dasharray: 5,5; }
.message-text { font-family: 'Segoe UI', Roboto, 'Helvetica Neue', Arial, sans-serif; font-size: 12px; fill: #333333; text-anchor: middle; }
.arrow-head { fill: #333333; }
.arrow-head-open { fill: none; stroke: #333333; stroke-width: 1; }
.alt-box { fill: none; stroke: #999999; stroke-width: 1; }
.alt-label-box { fill: #FAFAFA; stroke: #999999; stroke-width: 1; }
.alt-label-text { font-family: 'Segoe UI', Roboto, 'Helvetica Neue', Arial, sans-serif; font-size: 10px; font-weight: bold; fill: #333333; }
.alt-condition-text { font-family: 'Segoe UI', Roboto, 'Helvetica Neue', Arial, sans-serif; font-size: 11px; font-style: italic; fill: #333333; }
.alt-divider { stroke: #999999; stroke-width: 1; stroke-dasharray: 5,5; }
.divider-line { stroke: #999999; stroke-width: 1; stroke-dasharray: 5,5; }
.divider-box { fill: #FFFFFF; stroke: #999999; stroke-width: 1; }
.divider-text { font-family: 'Segoe UI', Roboto, 'Helvetica Neue', Arial, sans-serif; font-size: 11px; fill: #333333; text-anchor: middle; }
.class {
  fill: #F0F0F0;
  stroke: #333333;
  stroke-width: 1.5;
  --rx: 4;
  --ry: 4;
}
.interface {
  fill: #E8F4E8;
  stroke: #333333;
  stroke-width: 1.5;
  --rx: 4;
  --ry: 4;
}
.abstract-class {
  fill: #F0F0F0;
  stroke: #333333;
  stroke-width: 1.5;
  --rx: 4;
  --ry: 4;
}
.enum {
  fill: #F4F0E8;
  stroke: #333333;
  stroke-width: 1.5;
  --rx: 4;
  --ry: 4;
}
.class-name { font-family: 'Segoe UI', Roboto, 'Helvetica Neue', Arial, sans-serif; font-size: 12px; font-weight: bold; fill: #333333; text-anchor: middle; }
.interface-name { font-family: 'Segoe UI', Roboto, 'Helvetica Neue', Arial, sans-serif; font-size: 12px; font-weight: bold; font-style: italic; fill: #333333; text-anchor: middle; }
.abstract-class-name { font-family: 'Segoe UI', Roboto, 'Helvetica Neue', Arial, sans-serif; font-size: 12px; font-weight: bold; font-style: italic; fill: #333333; text-anchor: middle; }
.class-stereotype { font-family: 'Segoe UI', Roboto, 'Helvetica Neue', Arial, sans-serif; font-size: 10px; fill: #666666; text-anchor: middle; }
.class-separator { stroke: #333333; stroke-width: 1; }
.interface-separator { stroke: #333333; stroke-width: 1; }
.abstract-class-separator { stroke: #333333; stroke-width: 1; }
.class-field-name { font-family: 'Segoe UI', Roboto, 'Helvetica Neue', Arial, sans-serif; font-size: 11px; fill: #333333; }
.class-field-name-static { text-decoration: underline; }
.abstract-class-field-name { font-family: 'Segoe UI', Roboto, 'Helvetica Neue', Arial, sans-serif; font-size: 11px; fill: #333333; }
.abstract-class-field-name-static { text-decoration: underline; }
.class-method-name { font-family: 'Segoe UI', Roboto, 'Helvetica Neue', Arial, sans-serif; font-size: 11px; fill: #333333; }
.class-method-name-static { text-decoration: underline; }
.class-method-name-abstract { font-style: italic; }
.interface-method-name { font-family: 'Segoe UI', Roboto, 'Helvetica Neue', Arial, sans-serif; font-size: 11px; font-style: italic; fill: #333333; }
.interface-method-name-static { text-decoration: underline; }
.abstract-class-method-name { font-family: 'Segoe UI', Roboto, 'Helvetica Neue', Arial, sans-serif; font-size: 11px; fill: #333333; }
.abstract-class-method-name-static { text-decoration: underline; }
.abstract-class-method-name-abstract { font-style: italic; }
.relationship { fill: none; stroke: #333333; stroke-width: 1.5; }
.relationship-dashed { stroke-dasharray: 5,5; }
.relationship-label { font-family: 'Segoe UI', Roboto, 'Helvetica Neue', Arial, sans-serif; font-size: 11px; fill: #333333; text-anchor: middle; }
.marker-triangle { fill: #FFFFFF; stroke: #333333; stroke-width: 1; }
.marker-arrow { fill: #333333; }
.marker-diamond-filled { fill: #333333; }
.marker-diamond-empty { fill: #FFFFFF; stroke: #333333; stroke-width: 1; }
";

/// The kinds of diagram.
#[derive(Debug, Clone, Copy, PartialEq, Eq, Structural)]
pub enum DiagramType {
    Sequence,
    Class,
}

/// The settings shared by all kinds of diagram.
#[derive(Debug, Clone)]
pub struct DiagramStyle {
    pub background_color: String,
    pub font_color: String,
    pub border_color: String,
    pub arrow_color: String,
    pub arrow_thickness: Num,
    pub participant_bg_color: String,
    pub participant_border_color: String,
    pub lifeline_color: String,
    pub alt_bg_color: String,
    pub alt_border_color: String,
    pub class_bg_color: String,
    pub class_border_color: String,
    pub interface_bg_color: String,
    pub margin: Num,
    pub padding: Num,
    pub font_size: Num,
    pub char_width: Num,
    pub spacing_x: Num,
    pub spacing_y: Num,
    pub font_family: String,
}

/// The measures of a style: the settings that a layout and a drawing depend
/// on.
pub struct Measures {
    pub margin: Num,
    pub padding: Num,
    pub char_width: Num,
    pub spacing_x: Num,
    pub spacing_y: Num,
}

/// The measures of the default style.
pub open spec fn default_measures() -> Measures {
    Measures {
        margin: Num { milli: 30_000 },
        padding: Num { milli: 10_000 },
        char_width: Num { milli: 7_000 },
        spacing_x: Num { milli: 60_000 },
        spacing_y: Num { milli: 80_000 },
    }
}

impl DiagramStyle {
    /// The measures of the style.
    pub open spec fn measures(&self) -> Measures {
        Measures {
            margin: self.margin,
            padding: self.padding,
            char_width: self.char_width,
            spacing_x: self.spacing_x,
            spacing_y: self.spacing_y,
        }
    }

    /// The style with another font family.
    pub fn with_font_family(self, family: &str) -> (r: DiagramStyle)
        ensures
            r.font_family@ == family@,
            r == (DiagramStyle { font_family: r.font_family, ..self }),
    {
        let mut style = self;
        style.font_family = family.to_owned();
        style
    }

    /// The style with another background colour.
    pub fn with_background_color(self, color: &str) -> (r: DiagramStyle)
        ensures
            r.background_color@ == color@,
            r == (DiagramStyle { background_color: r.background_color, ..self }),
    {
        let mut style = self;
        style.background_color = color.to_owned();
        style
    }

    /// The style with another font colour.
    pub fn with_font_color(self, color: &str) -> (r: DiagramStyle)
        ensures
            r.font_color@ == color@,
            r == (DiagramStyle { font_color: r.font_color, ..self }),
    {
        let mut style = self;
        style.font_color = color.to_owned();
        style
    }
}

impl Default for DiagramStyle {
    fn default() -> (r: DiagramStyle)
        ensures
            r.background_color@ == "#FFFFFF"@,
            r.font_color@ == "#333333"@,
            r.border_color@ == "#333333"@,
            r.arrow_color@ == "#333333"@,
            r.arrow_thickness@ == 1_500,
            r.participant_bg_color@ == "#F0F0F0"@,
            r.participant_border_color@ == "#333333"@,
            r.lifeline_color@ == "#666666"@,
            r.alt_bg_color@ == "#FAFAFA"@,
            r.alt_border_color@ == "#999999"@,
            r.class_bg_color@ == "#F0F0F0"@,
            r.class_border_color@ == "#333333"@,
            r.interface_bg_color@ == "#E8F4E8"@,
            r.margin@ == 30_000,
            r.padding@ == 10_000,
            r.font_size@ == 12_000,
            r.char_width@ == 7_000,
            r.spacing_x@ == 60_000,
            r.spacing_y@ == 80_000,
            r.font_family@ == "'Segoe UI', Roboto, 'Helvetica Neue', Arial, sans-serif"@,
            r.measures() == default_measures(),
    {
        DiagramStyle {
            background_color: "#FFFFFF".to_owned(),
            font_color: "#333333".to_owned(),
            border_color: "#333333".to_owned(),
            arrow_color: "#333333".to_owned(),
            arrow_thickness: Num::from_milli(1_500),
            participant_bg_color: "#F0F0F0".to_owned(),
            participant_border_color: "#333333".to_owned(),
            lifeline_color: "#666666".to_owned(),
            alt_bg_color: "#FAFAFA".to_owned(),
            alt_border_color: "#999999".to_owned(),
            class_bg_color: "#F0F0F0".to_owned(),
            class_border_color: "#333333".to_owned(),
            interface_bg_color: "#E8F4E8".to_owned(),
            margin: Num::from_int(30),
            padding: Num::from_int(10),
            font_size: Num::from_int(12),
            char_width: Num::from_int(7),
            spacing_x: Num::from_int(60),
            spacing_y: Num::from_int(80),
            font_family: "'Segoe UI', Roboto, 'Helvetica Neue', Arial, sans-serif".to_owned(),
        }
    }
}

} // verus!
