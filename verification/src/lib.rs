//! Compiles a small line-oriented diagram language into SVG markup.
//!
//! A source text describes a class diagram or a sequence diagram between the
//! lines `@start_uml` and `@end_uml`. It is parsed into a model, the model is
//! laid out, and the laid-out model is drawn. Style sheets lie in layers: the
//! built-in sheet, then the external sheets in the order in which they were
//! given, then the inline sheet between `@start_style` and `@end_style`.
//!
//! All lengths are fixed-point numbers with three places after the point.

pub mod class_diagram;
pub mod css;
pub mod number;
pub mod sequence_diagram;
pub mod style;
pub mod svg;
pub mod text;

pub use class_diagram::{ClassDef, ClassDiagram, RelationType};
pub use number::Num;
pub use sequence_diagram::{ArrowStyle, Message, Participant, SequenceDiagram};
pub use style::{DiagramStyle, DiagramType, DEFAULT_STYLES_CSS};

use crate::style::{default_measures, Measures};

use crate::class_diagram::detect::{describes_classes, is_class_diagram};
use crate::text::joined;
use vstd::prelude::*;

verus! {

/// The kind of diagram that a source text describes.
pub open spec fn kind_of(source: Seq<char>) -> DiagramType {
    if describes_classes(source) {
        DiagramType::Class
    } else {
        DiagramType::Sequence
    }
}

/// The drawing of the diagram that a source text describes, of whichever
/// kind it is.
pub open spec fn rendered(source: Seq<char>, style: Measures, file_css: Option<Seq<char>>) -> Seq<
    char,
> {
    match kind_of(source) {
        DiagramType::Sequence => crate::sequence_diagram::render::drawing(source, style, file_css),
        DiagramType::Class => crate::class_diagram::render::drawing(source, style, file_css),
    }
}

/// The texts of a list of sheets.
pub open spec fn sheet_texts(sheets: Seq<String>) -> Seq<Seq<char>> {
    sheets.map_values(|s: String| s@)
}

/// The external sheets as one: joined by line feeds in the order in which
/// they were given, so that a later one overrides an earlier one; `None`
/// where there is none.
pub open spec fn combined(sheets: Seq<Seq<char>>) -> Option<Seq<char>> {
    if sheets.len() == 0 {
        None
    } else {
        Some(joined(sheets))
    }
}

/// What a builder holds.
pub struct BuilderView {
    pub source: Seq<char>,
    pub style: Measures,
    pub sheets: Seq<Seq<char>>,
}

/// Gathers the source text, the settings and the external style sheets of a
/// diagram, and draws it.
pub struct DiagramBuilder<'a> {
    source: &'a str,
    style: DiagramStyle,
    external_css: Vec<String>,
}

impl<'a> View for DiagramBuilder<'a> {
    type V = BuilderView;

    closed spec fn view(&self) -> BuilderView {
        BuilderView {
            source: self.source@,
            style: self.style.measures(),
            sheets: sheet_texts(self.external_css@),
        }
    }
}

impl<'a> DiagramBuilder<'a> {
    /// A builder for a source text, with the default settings and no
    /// external sheet.
    pub fn new(source: &'a str) -> (r: Self)
        ensures
            r@.source == source@,
            r@.style == default_measures(),
            r@.sheets == Seq::<Seq<char>>::empty(),
    {
        let r = DiagramBuilder { source, style: DiagramStyle::default(), external_css: Vec::new() };
        assert(r@.sheets =~= Seq::<Seq<char>>::empty());
        r
    }

    /// The builder with one more external sheet, above those given before.
    pub fn with_style(self, css: &str) -> (r: Self)
        ensures
            r@ == (BuilderView { sheets: self@.sheets.push(css@), ..self@ }),
    {
        let mut builder = self;
        let sheet = css.to_owned();
        builder.external_css.push(sheet);
        assert(sheet_texts(builder.external_css@) =~= sheet_texts(self.external_css@).push(css@));
        builder
    }

    /// The builder with other settings.
    pub fn with_diagram_style(self, style: DiagramStyle) -> (r: Self)
        ensures
            r@ == (BuilderView { style: style.measures(), ..self@ }),
    {
        let mut builder = self;
        builder.style = style;
        builder
    }

    /// Draws the diagram.
    pub fn render(self) -> (r: String)
        ensures
            r@ == rendered(self@.source, self@.style, combined(self@.sheets)),
    {
        let n: usize = self.external_css.len();
        let ghost sheets = sheet_texts(self.external_css@);
        let mut all = String::new();
        let mut i: usize = 0;
        assert(sheets.take(0) =~= Seq::<Seq<char>>::empty());
        while i < n
            invariant
                i <= n,
                n == self.external_css@.len(),
                sheets == sheet_texts(self.external_css@),
                all@ == joined(sheets.take(i as int)),
            decreases n - i,
        {
            if i > 0 {
                all.append("\n");
            }
            all.append(self.external_css[i].as_str());
            proof {
                reveal_strlit("\n");
                assert("\n"@ =~= seq!['\n']);
                assert(sheets.take(i + 1).drop_last() =~= sheets.take(i as int));
                assert(sheets.take(i + 1).last() == self.external_css@[i as int]@);
                assert(all@ =~= joined(sheets.take(i + 1)));
            }
            i += 1;
        }
        assert(sheets.take(n as int) =~= sheets);
        let file_css: Option<&str> = if n == 0 {
            None
        } else {
            Some(all.as_str())
        };
        match detect_diagram_type(self.source) {
            DiagramType::Sequence => crate::sequence_diagram::render::render_with_file_css(
                self.source,
                &self.style,
                file_css,
            ),
            DiagramType::Class => crate::class_diagram::render::render_with_file_css(
                self.source,
                &self.style,
                file_css,
            ),
        }
    }
}

/// A builder for a source text.
pub fn create_diagram(source: &str) -> (r: DiagramBuilder<'_>)
    ensures
        r@.source == source@,
        r@.style == default_measures(),
        r@.sheets == Seq::<Seq<char>>::empty(),
{
    DiagramBuilder::new(source)
}

/// The kind of diagram that a source text describes.
pub fn detect_diagram_type(source: &str) -> (r: DiagramType)
    ensures
        r == kind_of(source@),
{
    if is_class_diagram(source) {
        DiagramType::Class
    } else {
        DiagramType::Sequence
    }
}

/// Draws the diagram that a source text describes, with the default
/// settings.
pub fn render_diagram(source: &str) -> (r: String)
    ensures
        r@ == rendered(source@, default_measures(), None),
{
    let style = DiagramStyle::default();
    render_diagram_styled(source, &style)
}

/// Draws the diagram that a source text describes.
pub fn render_diagram_styled(source: &str, style: &DiagramStyle) -> (r: String)
    ensures
        r@ == rendered(source@, style.measures(), None),
{
    match detect_diagram_type(source) {
        DiagramType::Sequence => crate::sequence_diagram::render::render(source, style),
        DiagramType::Class => crate::class_diagram::render::render(source, style),
    }
}

} // verus!
