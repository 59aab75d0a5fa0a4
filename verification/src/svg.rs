//! The output builder: it gathers the markup of a drawing piece by piece and
//! holds the property table that the style sheets resolve to.

use crate::css::{cascade_overrides, sheet_table, value_or, CssProperties, Table};
use crate::number::{decimal_text, Num};
use crate::style::{DiagramStyle, DEFAULT_STYLES_CSS};
use vstd::prelude::*;

verus! {

// ---------------------------------------------------------------------------
// Escaping
// ---------------------------------------------------------------------------

/// What stands for a character in the content of an element.
pub open spec fn escaped_char(c: char) -> Seq<char> {
    if c == '&' {
        "&amp;"@
    } else if c == '<' {
        "&lt;"@
    } else if c == '>' {
        "&gt;"@
    } else if c == '"' {
        "&quot;"@
    } else if c == '\'' {
        "&#39;"@
    } else {
        seq![c]
    }
}

/// A text with each of the five special characters replaced by its entity.
pub open spec fn escaped(s: Seq<char>) -> Seq<char>
    decreases s.len(),
{
    if s.len() == 0 {
        Seq::empty()
    } else {
        escaped(s.drop_last()) + escaped_char(s.last())
    }
}

fn push_escaped(out: &mut String, text: &str)
    ensures
        final(out)@ == old(out)@ + escaped(text@),
{
    assert(old(out)@ + escaped(text@.take(0)) =~= old(out)@);
    for c in it: text.chars()
        invariant
            it.seq() == text@,
            out@ == old(out)@ + escaped(text@.take(it.index() as int)),
    {
        let ghost before = text@.take(it.index() as int);
        let ghost grown = text@.take(it.index() + 1);
        proof {
            assert(grown.drop_last() =~= before);
            assert(grown.last() == c);
            assert(old(out)@ + (escaped(before) + escaped_char(c)) =~= (old(out)@ + escaped(before))
                + escaped_char(c));
        }
        if c == '&' {
            out.append("&amp;");
        } else if c == '<' {
            out.append("&lt;");
        } else if c == '>' {
            out.append("&gt;");
        } else if c == '"' {
            out.append("&quot;");
        } else if c == '\'' {
            out.append("&#39;");
        } else {
            crate::text::push_char(out, c);
            assert(out@ =~= (old(out)@ + escaped(before)) + seq![c]);
        }
    }
    assert(text@.take(text@.len() as int) =~= text@);
}

/// Replaces the five special characters of XML by their entities.
pub fn escape_xml(text: &str) -> (r: String)
    ensures
        r@ == escaped(text@),
{
    let mut out = String::new();
    push_escaped(&mut out, text);
    assert(Seq::<char>::empty() + escaped(text@) =~= escaped(text@));
    out
}

// ---------------------------------------------------------------------------
// Attributes and point lists
// ---------------------------------------------------------------------------

/// An attribute with a numeric value, with the blank before it.
pub open spec fn num_attr(name: Seq<char>, v: int) -> Seq<char> {
    " "@ + name + "=\""@ + decimal_text(v) + "\""@
}

/// An attribute with a textual value, with the blank before it. The value is
/// written as it stands.
pub open spec fn text_attr(name: Seq<char>, value: Seq<char>) -> Seq<char> {
    " "@ + name + "=\""@ + value + "\""@
}

/// An attribute that is left out where its value is empty.
pub open spec fn optional_attr(name: Seq<char>, value: Seq<char>) -> Seq<char> {
    if value.len() == 0 {
        Seq::empty()
    } else {
        text_attr(name, value)
    }
}

/// One point: its two coordinates with a comma between them.
pub open spec fn point_text(p: (Num, Num)) -> Seq<char> {
    decimal_text(p.0@) + ","@ + decimal_text(p.1@)
}

/// A list of points, with a blank between one and the next.
pub open spec fn points_text(ps: Seq<(Num, Num)>) -> Seq<char>
    decreases ps.len(),
{
    if ps.len() == 0 {
        Seq::empty()
    } else if ps.len() == 1 {
        point_text(ps[0])
    } else {
        points_text(ps.drop_last()) + " "@ + point_text(ps.last())
    }
}

pub(crate) fn put_num_attr(out: &mut String, name: &str, v: Num)
    ensures
        final(out)@ == old(out)@ + num_attr(name@, v@),
{
    out.append(" ");
    out.append(name);
    out.append("=\"");
    v.write_to(out);
    out.append("\"");
    assert(out@ =~= old(out)@ + num_attr(name@, v@));
}

pub(crate) fn put_text_attr(out: &mut String, name: &str, value: &str)
    ensures
        final(out)@ == old(out)@ + text_attr(name@, value@),
{
    out.append(" ");
    out.append(name);
    out.append("=\"");
    out.append(value);
    out.append("\"");
    assert(out@ =~= old(out)@ + text_attr(name@, value@));
}

pub(crate) fn put_optional_attr(out: &mut String, name: &str, value: &str)
    ensures
        final(out)@ == old(out)@ + optional_attr(name@, value@),
{
    if value.unicode_len() == 0 {
        assert(out@ + Seq::<char>::empty() =~= out@);
    } else {
        put_text_attr(out, name, value);
    }
}

pub(crate) fn put_points(out: &mut String, points: &[(Num, Num)])
    ensures
        final(out)@ == old(out)@ + points_text(points@),
{
    let mut i: usize = 0;
    assert(out@ + points_text(points@.take(0)) =~= out@);
    while i < points.len()
        invariant
            i <= points@.len(),
            out@ == old(out)@ + points_text(points@.take(i as int)),
        decreases points@.len() - i,
    {
        let ghost before = points@.take(i as int);
        let ghost grown = points@.take(i + 1);
        let ghost start = out@;
        if i > 0 {
            out.append(" ");
        }
        points[i].0.write_to(out);
        out.append(",");
        points[i].1.write_to(out);
        proof {
            assert(grown.drop_last() =~= before);
            assert(grown.last() == points@[i as int]);
            if i > 0 {
                assert(out@ =~= start + (" "@ + point_text(points@[i as int])));
                assert(old(out)@ + (points_text(before) + " "@ + point_text(points@[i as int]))
                    =~= start + (" "@ + point_text(points@[i as int])));
            } else {
                assert(out@ =~= start + point_text(points@[i as int]));
                assert(points_text(before) =~= Seq::<char>::empty());
                assert(old(out)@ + point_text(points@[i as int]) =~= start + point_text(
                    points@[i as int],
                ));
            }
        }
        i += 1;
    }
    assert(points@.take(points@.len() as int) =~= points@);
}

pub(crate) fn put_points_attr(out: &mut String, points: &[(Num, Num)])
    ensures
        final(out)@ == old(out)@ + text_attr("points"@, points_text(points@)),
{
    out.append(" ");
    out.append("points");
    out.append("=\"");
    put_points(out, points);
    out.append("\"");
    assert(out@ =~= old(out)@ + text_attr("points"@, points_text(points@)));
}

// ---------------------------------------------------------------------------
// The markup of each primitive
// ---------------------------------------------------------------------------

/// A rectangle.
pub open spec fn rect_markup(x: int, y: int, w: int, h: int, class: Seq<char>) -> Seq<char> {
    "<rect"@ + num_attr("x"@, x) + num_attr("y"@, y) + num_attr("width"@, w) + num_attr(
        "height"@,
        h,
    ) + text_attr("class"@, class) + "/>"@
}

/// A rectangle with rounded corners.
pub open spec fn rounded_rect_markup(
    x: int,
    y: int,
    w: int,
    h: int,
    rx: int,
    ry: int,
    class: Seq<char>,
) -> Seq<char> {
    "<rect"@ + num_attr("x"@, x) + num_attr("y"@, y) + num_attr("width"@, w) + num_attr(
        "height"@,
        h,
    ) + num_attr("rx"@, rx) + num_attr("ry"@, ry) + text_attr("class"@, class) + "/>"@
}

/// The reference to a filter, where there is one.
pub open spec fn filter_attr(filter: Option<Seq<char>>) -> Seq<char> {
    match filter {
        Some(f) => " filter=\"url(#"@ + f + ")\""@,
        None => Seq::empty(),
    }
}

/// A rectangle with rounded corners and, where one is given, a filter.
pub open spec fn filtered_rect_markup(
    x: int,
    y: int,
    w: int,
    h: int,
    rx: int,
    ry: int,
    class: Seq<char>,
    filter: Option<Seq<char>>,
) -> Seq<char> {
    "<rect"@ + num_attr("x"@, x) + num_attr("y"@, y) + num_attr("width"@, w) + num_attr(
        "height"@,
        h,
    ) + num_attr("rx"@, rx) + num_attr("ry"@, ry) + text_attr("class"@, class) + filter_attr(
        filter,
    ) + "/>"@
}

/// A line.
pub open spec fn line_markup(x1: int, y1: int, x2: int, y2: int, class: Seq<char>) -> Seq<char> {
    "<line"@ + num_attr("x1"@, x1) + num_attr("y1"@, y1) + num_attr("x2"@, x2) + num_attr(
        "y2"@,
        y2,
    ) + text_attr("class"@, class) + "/>"@
}

/// A text, with its content escaped.
pub open spec fn text_markup(x: int, y: int, content: Seq<char>, class: Seq<char>) -> Seq<char> {
    "<text"@ + num_attr("x"@, x) + num_attr("y"@, y) + text_attr("class"@, class) + ">"@ + escaped(
        content,
    ) + "</text>"@
}

/// An open path through points, with a marker at its end where one is named.
pub open spec fn polyline_markup(
    points: Seq<(Num, Num)>,
    class: Seq<char>,
    marker_end: Seq<char>,
) -> Seq<char> {
    "<polyline"@ + text_attr("points"@, points_text(points)) + text_attr("class"@, class)
        + optional_attr("marker-end"@, marker_end) + "/>"@
}

/// A closed path through points.
pub open spec fn polygon_markup(points: Seq<(Num, Num)>, class: Seq<char>) -> Seq<char> {
    "<polygon"@ + text_attr("points"@, points_text(points)) + text_attr("class"@, class) + "/>"@
}

/// The dash pattern of a dashed stroke.
pub open spec fn dash_attr(dashed: bool) -> Seq<char> {
    if dashed {
        " stroke-dasharray=\"5,5\""@
    } else {
        Seq::empty()
    }
}

/// A line with its stroke given in place.
pub open spec fn plain_line_markup(
    x1: int,
    y1: int,
    x2: int,
    y2: int,
    color: Seq<char>,
    width: int,
    dashed: bool,
) -> Seq<char> {
    "<line"@ + num_attr("x1"@, x1) + num_attr("y1"@, y1) + num_attr("x2"@, x2) + num_attr(
        "y2"@,
        y2,
    ) + text_attr("stroke"@, color) + num_attr("stroke-width"@, width) + dash_attr(dashed)
        + "/>"@
}

/// A rectangle with its fill and stroke given in place.
pub open spec fn plain_rect_markup(
    x: int,
    y: int,
    w: int,
    h: int,
    fill: Seq<char>,
    stroke: Seq<char>,
) -> Seq<char> {
    "<rect"@ + num_attr("x"@, x) + num_attr("y"@, y) + num_attr("width"@, w) + num_attr(
        "height"@,
        h,
    ) + text_attr("fill"@, fill) + text_attr("stroke"@, stroke) + " stroke-width=\"1\"/>"@
}

/// The font attributes that a text takes from a style.
pub open spec fn font_attrs(family: Seq<char>, size: int, color: Seq<char>) -> Seq<char> {
    text_attr("font-family"@, family) + num_attr("font-size"@, size) + text_attr("fill"@, color)
}

/// A text with its font given in place.
pub open spec fn plain_text_markup(
    x: int,
    y: int,
    content: Seq<char>,
    family: Seq<char>,
    size: int,
    color: Seq<char>,
) -> Seq<char> {
    "<text"@ + num_attr("x"@, x) + num_attr("y"@, y) + font_attrs(family, size, color) + ">"@
        + escaped(content) + "</text>"@
}

/// The weight of a bold text.
pub open spec fn weight_attr(bold: bool) -> Seq<char> {
    if bold {
        " font-weight=\"bold\""@
    } else {
        Seq::empty()
    }
}

/// A centred text with its font given in place.
pub open spec fn centered_text_markup(
    x: int,
    y: int,
    content: Seq<char>,
    family: Seq<char>,
    size: int,
    color: Seq<char>,
    bold: bool,
) -> Seq<char> {
    "<text"@ + num_attr("x"@, x) + num_attr("y"@, y) + font_attrs(family, size, color)
        + " text-anchor=\"middle\""@ + weight_attr(bold) + ">"@ + escaped(content) + "</text>"@
}

/// An open path with its stroke given in place.
pub open spec fn plain_polyline_markup(
    points: Seq<(Num, Num)>,
    color: Seq<char>,
    width: int,
    dashed: bool,
    marker_end: Seq<char>,
) -> Seq<char> {
    "<polyline"@ + text_attr("points"@, points_text(points)) + " fill=\"none\""@ + text_attr(
        "stroke"@,
        color,
    ) + num_attr("stroke-width"@, width) + dash_attr(dashed) + optional_attr(
        "marker-end"@,
        marker_end,
    ) + "/>"@
}

// ---------------------------------------------------------------------------
// The opening of a drawing
// ---------------------------------------------------------------------------

/// The view of an optional string slice.
pub open spec fn opt_text(o: Option<&str>) -> Option<Seq<char>> {
    match o {
        Some(s) => Some(s@),
        None => None,
    }
}

/// One more layer of the embedded style sheet: its heading and its text.
pub open spec fn layer_text(heading: Seq<char>, css: Option<Seq<char>>) -> Seq<char> {
    match css {
        Some(c) => heading + c,
        None => Seq::empty(),
    }
}

/// The table after one more layer of the cascade.
pub open spec fn layer_table(css: Option<Seq<char>>, base: Table) -> Table {
    match css {
        Some(c) => sheet_table(c, base),
        None => base,
    }
}

/// The property table that the layers resolve to: the built-in sheet, then
/// the external sheet over it, then the inline sheet over both.
pub open spec fn resolved(file_css: Option<Seq<char>>, inline_css: Option<Seq<char>>) -> Table {
    layer_table(inline_css, layer_table(file_css, sheet_table(DEFAULT_STYLES_CSS@, Map::empty())))
}

/// A sheet, where there is one, declares the property of the category.
pub open spec fn declares(css: Option<Seq<char>>, class: Seq<char>, property: Seq<char>) -> bool {
    match css {
        Some(c) => sheet_table(c, Map::empty()).contains_key((class, property)),
        None => false,
    }
}

/// The value that a sheet alone gives to the property of the category.
pub open spec fn own_value(css: Option<Seq<char>>, class: Seq<char>, property: Seq<char>) -> int {
    match css {
        Some(c) => sheet_table(c, Map::empty())[(class, property)],
        None => 0,
    }
}

/// The order of the layers. The value of a property is the one that the
/// inline sheet declares; where that declares none, the one that the
/// external sheet declares; where that declares none either, the one that
/// the built-in sheet declares; and the default where no sheet declares one.
pub proof fn layers_resolve_in_order(
    file_css: Option<Seq<char>>,
    inline_css: Option<Seq<char>>,
    class: Seq<char>,
    property: Seq<char>,
    default: int,
)
    ensures
        value_or(resolved(file_css, inline_css), class, property, default) == if declares(
            inline_css,
            class,
            property,
        ) {
            own_value(inline_css, class, property)
        } else if declares(file_css, class, property) {
            own_value(file_css, class, property)
        } else {
            value_or(sheet_table(DEFAULT_STYLES_CSS@, Map::empty()), class, property, default)
        },
{
    let built_in = sheet_table(DEFAULT_STYLES_CSS@, Map::empty());
    let with_file = layer_table(file_css, built_in);
    match file_css {
        Some(c) => {
            cascade_overrides(c, built_in);
        },
        None => {},
    }
    match inline_css {
        Some(c) => {
            cascade_overrides(c, with_file);
        },
        None => {},
    }
}

/// The opening of a drawing: the root element with its size, the embedded
/// style sheet with its layers in rising priority, and the background.
#[verifier::opaque]
pub open spec fn opening(
    width: int,
    height: int,
    file_css: Option<Seq<char>>,
    inline_css: Option<Seq<char>>,
) -> Seq<char> {
    "<svg xmlns=\"http://www.w3.org/2000/svg\""@ + num_attr("width"@, width) + num_attr(
        "height"@,
        height,
    ) + ">"@ + "<style type=\"text/css\">\n"@ + DEFAULT_STYLES_CSS@ + layer_text(
        "\n/* Style file overrides */\n"@,
        file_css,
    ) + layer_text("\n/* Inline style overrides */\n"@, inline_css) + "\n</style>"@
        + "<rect width=\"100%\" height=\"100%\" class=\"diagram-background\"/>"@
}

/// A property named for a shadow has a value other than zero.
pub open spec fn shadowed(table: Table, class: Seq<char>) -> bool {
    value_or(table, class, "shadow-dx"@, 0) != 0 || value_or(table, class, "shadow-dy"@, 0) != 0
        || value_or(table, class, "shadow-blur"@, 0) != 0
}

/// Gathers the markup of a drawing.
pub struct SvgBuilder {
    output: String,
    css_props: CssProperties,
}

impl SvgBuilder {
    /// The markup gathered so far.
    pub closed spec fn markup(&self) -> Seq<char> {
        self.output@
    }

    /// The property table of the drawing.
    pub closed spec fn props(&self) -> Table {
        self.css_props@
    }

    /// A builder that holds the opening of a drawing of the given size. The
    /// external sheet lies over the built-in one, the inline sheet over both.
    pub fn new(
        width: Num,
        height: Num,
        _style: &DiagramStyle,
        file_css: Option<&str>,
        inline_css: Option<&str>,
    ) -> (r: SvgBuilder)
        ensures
            r.markup() == opening(width@, height@, opt_text(file_css), opt_text(inline_css)),
            r.props() == resolved(opt_text(file_css), opt_text(inline_css)),
    {
        reveal(opening);
        let mut css_props = CssProperties::from_css(DEFAULT_STYLES_CSS);
        if let Some(css) = file_css {
            css_props.merge_css(css);
        }
        if let Some(css) = inline_css {
            css_props.merge_css(css);
        }
        let mut output = "<svg xmlns=\"http://www.w3.org/2000/svg\"".to_owned();
        put_num_attr(&mut output, "width", width);
        put_num_attr(&mut output, "height", height);
        output.append(">");
        output.append("<style type=\"text/css\">\n");
        output.append(DEFAULT_STYLES_CSS);
        let ghost base = output@;
        if let Some(css) = file_css {
            output.append("\n/* Style file overrides */\n");
            output.append(css);
        }
        let ghost mid = output@;
        if let Some(css) = inline_css {
            output.append("\n/* Inline style overrides */\n");
            output.append(css);
        }
        let ghost top = output@;
        output.append("\n</style>");
        output.append("<rect width=\"100%\" height=\"100%\" class=\"diagram-background\"/>");
        proof {
            assert(mid =~= base + layer_text("\n/* Style file overrides */\n"@, opt_text(file_css)));
            assert(top =~= mid + layer_text(
                "\n/* Inline style overrides */\n"@,
                opt_text(inline_css),
            ));
        }
        SvgBuilder { output, css_props }
    }

    /// The value of a custom property of a category, where a sheet gives one.
    pub fn css_prop(&self, class: &str, property: &str) -> (r: Option<Num>)
        ensures
            match r {
                Some(v) => self.props().contains_key((class@, property@)) && self.props()[(
                    class@,
                    property@,
                )] == v@,
                None => !self.props().contains_key((class@, property@)),
            },
    {
        self.css_props.get(class, property)
    }

    /// The value of a custom property of a category, or `default`.
    pub fn css_prop_or(&self, class: &str, property: &str, default: Num) -> (r: Num)
        ensures
            r@ == value_or(self.props(), class@, property@, default@),
    {
        self.css_props.get_or(class, property, default)
    }

    /// Whether the sheets give the category a shadow.
    pub fn has_shadow(&self, class: &str) -> (b: bool)
        ensures
            b == shadowed(self.props(), class@),
    {
        let dx = self.css_prop_or(class, "shadow-dx", Num::zero());
        let dy = self.css_prop_or(class, "shadow-dy", Num::zero());
        let blur = self.css_prop_or(class, "shadow-blur", Num::zero());
        !dx.is_zero() || !dy.is_zero() || !blur.is_zero()
    }

    /// Appends markup as it stands.
    pub fn push(&mut self, content: &str)
        ensures
            final(self).markup() == old(self).markup() + content@,
            final(self).props() == old(self).props(),
    {
        self.output.append(content);
    }

    /// Draws a rectangle.
    pub fn rect_class(&mut self, x: Num, y: Num, w: Num, h: Num, class: &str)
        ensures
            final(self).markup() == old(self).markup() + rect_markup(x@, y@, w@, h@, class@),
            final(self).props() == old(self).props(),
    {
        let mut piece = "<rect".to_owned();
        put_num_attr(&mut piece, "x", x);
        put_num_attr(&mut piece, "y", y);
        put_num_attr(&mut piece, "width", w);
        put_num_attr(&mut piece, "height", h);
        put_text_attr(&mut piece, "class", class);
        piece.append("/>");
        self.output.append(piece.as_str());
    }

    /// Draws a rectangle with rounded corners.
    pub fn rect_rounded_class(
        &mut self,
        x: Num,
        y: Num,
        w: Num,
        h: Num,
        rx: Num,
        ry: Num,
        class: &str,
    )
        ensures
            final(self).markup() == old(self).markup() + rounded_rect_markup(
                x@,
                y@,
                w@,
                h@,
                rx@,
                ry@,
                class@,
            ),
            final(self).props() == old(self).props(),
    {
        let mut piece = "<rect".to_owned();
        put_num_attr(&mut piece, "x", x);
        put_num_attr(&mut piece, "y", y);
        put_num_attr(&mut piece, "width", w);
        put_num_attr(&mut piece, "height", h);
        put_num_attr(&mut piece, "rx", rx);
        put_num_attr(&mut piece, "ry", ry);
        put_text_attr(&mut piece, "class", class);
        piece.append("/>");
        self.output.append(piece.as_str());
    }

    /// Draws a rectangle with rounded corners and, where one is named, a
    /// filter.
    pub fn rect_rounded_class_filtered(
        &mut self,
        x: Num,
        y: Num,
        w: Num,
        h: Num,
        rx: Num,
        ry: Num,
        class: &str,
        filter: Option<&str>,
    )
        ensures
            final(self).markup() == old(self).markup() + filtered_rect_markup(
                x@,
                y@,
                w@,
                h@,
                rx@,
                ry@,
                class@,
                opt_text(filter),
            ),
            final(self).props() == old(self).props(),
    {
        let mut piece = "<rect".to_owned();
        put_num_attr(&mut piece, "x", x);
        put_num_attr(&mut piece, "y", y);
        put_num_attr(&mut piece, "width", w);
        put_num_attr(&mut piece, "height", h);
        put_num_attr(&mut piece, "rx", rx);
        put_num_attr(&mut piece, "ry", ry);
        put_text_attr(&mut piece, "class", class);
        let ghost before = piece@;
        if let Some(f) = filter {
            piece.append(" filter=\"url(#");
            piece.append(f);
            piece.append(")\"");
        }
        assert(piece@ =~= before + filter_attr(opt_text(filter)));
        piece.append("/>");
        self.output.append(piece.as_str());
    }

    /// Draws a line.
    pub fn line_class(&mut self, x1: Num, y1: Num, x2: Num, y2: Num, class: &str)
        ensures
            final(self).markup() == old(self).markup() + line_markup(x1@, y1@, x2@, y2@, class@),
            final(self).props() == old(self).props(),
    {
        let mut piece = "<line".to_owned();
        put_num_attr(&mut piece, "x1", x1);
        put_num_attr(&mut piece, "y1", y1);
        put_num_attr(&mut piece, "x2", x2);
        put_num_attr(&mut piece, "y2", y2);
        put_text_attr(&mut piece, "class", class);
        piece.append("/>");
        self.output.append(piece.as_str());
    }

    /// Draws a text.
    pub fn text_class(&mut self, x: Num, y: Num, content: &str, class: &str)
        ensures
            final(self).markup() == old(self).markup() + text_markup(x@, y@, content@, class@),
            final(self).props() == old(self).props(),
    {
        let mut piece = "<text".to_owned();
        put_num_attr(&mut piece, "x", x);
        put_num_attr(&mut piece, "y", y);
        put_text_attr(&mut piece, "class", class);
        piece.append(">");
        push_escaped(&mut piece, content);
        piece.append("</text>");
        self.output.append(piece.as_str());
    }

    /// Draws an open path through the points.
    pub fn polyline_class(&mut self, points: &[(Num, Num)], class: &str, marker_end: &str)
        ensures
            final(self).markup() == old(self).markup() + polyline_markup(
                points@,
                class@,
                marker_end@,
            ),
            final(self).props() == old(self).props(),
    {
        let mut piece = "<polyline".to_owned();
        put_points_attr(&mut piece, points);
        put_text_attr(&mut piece, "class", class);
        put_optional_attr(&mut piece, "marker-end", marker_end);
        piece.append("/>");
        self.output.append(piece.as_str());
    }

    /// Draws a closed path through the points.
    pub fn polygon_class(&mut self, points: &[(Num, Num)], class: &str)
        ensures
            final(self).markup() == old(self).markup() + polygon_markup(points@, class@),
            final(self).props() == old(self).props(),
    {
        let mut piece = "<polygon".to_owned();
        put_points_attr(&mut piece, points);
        put_text_attr(&mut piece, "class", class);
        piece.append("/>");
        self.output.append(piece.as_str());
    }

    /// Draws a line with its stroke given in place.
    pub fn line(
        &mut self,
        x1: Num,
        y1: Num,
        x2: Num,
        y2: Num,
        color: &str,
        width: Num,
        dashed: bool,
    )
        ensures
            final(self).markup() == old(self).markup() + plain_line_markup(
                x1@,
                y1@,
                x2@,
                y2@,
                color@,
                width@,
                dashed,
            ),
            final(self).props() == old(self).props(),
    {
        let mut piece = "<line".to_owned();
        put_num_attr(&mut piece, "x1", x1);
        put_num_attr(&mut piece, "y1", y1);
        put_num_attr(&mut piece, "x2", x2);
        put_num_attr(&mut piece, "y2", y2);
        put_text_attr(&mut piece, "stroke", color);
        put_num_attr(&mut piece, "stroke-width", width);
        let ghost before = piece@;
        if dashed {
            piece.append(" stroke-dasharray=\"5,5\"");
        }
        assert(piece@ =~= before + dash_attr(dashed));
        piece.append("/>");
        self.output.append(piece.as_str());
    }

    /// Draws a rectangle with its fill and stroke given in place.
    pub fn rect(&mut self, x: Num, y: Num, w: Num, h: Num, fill: &str, stroke: &str)
        ensures
            final(self).markup() == old(self).markup() + plain_rect_markup(
                x@,
                y@,
                w@,
                h@,
                fill@,
                stroke@,
            ),
            final(self).props() == old(self).props(),
    {
        let mut piece = "<rect".to_owned();
        put_num_attr(&mut piece, "x", x);
        put_num_attr(&mut piece, "y", y);
        put_num_attr(&mut piece, "width", w);
        put_num_attr(&mut piece, "height", h);
        put_text_attr(&mut piece, "fill", fill);
        put_text_attr(&mut piece, "stroke", stroke);
        piece.append(" stroke-width=\"1\"/>");
        self.output.append(piece.as_str());
    }

    /// Draws a text in the font of a style.
    pub fn text(&mut self, x: Num, y: Num, content: &str, style: &DiagramStyle)
        ensures
            final(self).markup() == old(self).markup() + plain_text_markup(
                x@,
                y@,
                content@,
                style.font_family@,
                style.font_size@,
                style.font_color@,
            ),
            final(self).props() == old(self).props(),
    {
        let mut piece = "<text".to_owned();
        put_num_attr(&mut piece, "x", x);
        put_num_attr(&mut piece, "y", y);
        put_text_attr(&mut piece, "font-family", style.font_family.as_str());
        put_num_attr(&mut piece, "font-size", style.font_size);
        put_text_attr(&mut piece, "fill", style.font_color.as_str());
        piece.append(">");
        push_escaped(&mut piece, content);
        piece.append("</text>");
        self.output.append(piece.as_str());
    }

    /// Draws a centred text in the font of a style.
    pub fn text_centered(
        &mut self,
        x: Num,
        y: Num,
        content: &str,
        style: &DiagramStyle,
        bold: bool,
    )
        ensures
            final(self).markup() == old(self).markup() + centered_text_markup(
                x@,
                y@,
                content@,
                style.font_family@,
                style.font_size@,
                style.font_color@,
                bold,
            ),
            final(self).props() == old(self).props(),
    {
        let mut piece = "<text".to_owned();
        put_num_attr(&mut piece, "x", x);
        put_num_attr(&mut piece, "y", y);
        put_text_attr(&mut piece, "font-family", style.font_family.as_str());
        put_num_attr(&mut piece, "font-size", style.font_size);
        put_text_attr(&mut piece, "fill", style.font_color.as_str());
        piece.append(" text-anchor=\"middle\"");
        let ghost before = piece@;
        if bold {
            piece.append(" font-weight=\"bold\"");
        }
        assert(piece@ =~= before + weight_attr(bold));
        piece.append(">");
        push_escaped(&mut piece, content);
        piece.append("</text>");
        self.output.append(piece.as_str());
    }

    /// Draws an open path with its stroke given in place.
    pub fn polyline(
        &mut self,
        points: &[(Num, Num)],
        color: &str,
        width: Num,
        dashed: bool,
        marker_end: &str,
    )
        ensures
            final(self).markup() == old(self).markup() + plain_polyline_markup(
                points@,
                color@,
                width@,
                dashed,
                marker_end@,
            ),
            final(self).props() == old(self).props(),
    {
        let mut piece = "<polyline".to_owned();
        put_points_attr(&mut piece, points);
        piece.append(" fill=\"none\"");
        put_text_attr(&mut piece, "stroke", color);
        put_num_attr(&mut piece, "stroke-width", width);
        let ghost before = piece@;
        if dashed {
            piece.append(" stroke-dasharray=\"5,5\"");
        }
        assert(piece@ =~= before + dash_attr(dashed));
        put_optional_attr(&mut piece, "marker-end", marker_end);
        piece.append("/>");
        self.output.append(piece.as_str());
    }

    /// Closes the drawing and hands its markup out.
    pub fn finish(self) -> (r: String)
        ensures
            r@ == self.markup() + "</svg>"@,
    {
        let mut output = self.output;
        output.append("</svg>");
        output
    }

    /// The markup gathered so far.
    pub fn raw(&self) -> (r: &str)
        ensures
            r@ == self.markup(),
    {
        self.output.as_str()
    }
}

} // verus!
