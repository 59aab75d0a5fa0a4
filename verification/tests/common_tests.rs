use pill_uml::css::{extract_css_property, extract_custom_css, CssProperties};
use pill_uml::svg::{escape_xml, SvgBuilder};
use pill_uml::text::{chars_of, push_chars, string_of};
use pill_uml::{DiagramStyle, Num};

#[test]
fn test_style_builder() {
    let style = DiagramStyle::default()
        .with_background_color("#000000")
        .with_font_color("#FFFFFF");

    assert_eq!(style.background_color, "#000000");
    assert_eq!(style.font_color, "#FFFFFF");
}

#[test]
fn test_extract_custom_css() {
    let source = "@start_style\n.test { fill: red; }\n@end_style\n@start_uml\n@end_uml";
    let css = extract_custom_css(source);
    assert!(css.is_some());
    assert!(css.unwrap().contains(".test { fill: red; }"));
}

#[test]
fn test_extract_custom_css_none() {
    let source = "@start_uml\nA -> B: test\n@end_uml";
    let css = extract_custom_css(source);
    assert!(css.is_none());
}

#[test]
fn the_style_block_keeps_its_lines_but_for_comments() {
    let source = "before\n@start_style\n  .a {\n// note\n  --rx: 2;\n}\n@end_style\n.b { }\n@start_style\n.c { }\n";
    assert_eq!(extract_custom_css(source).as_deref(), Some("  .a {\n  --rx: 2;\n}"));
    assert_eq!(extract_custom_css("@start_style\n// only a comment\n@end_style"), None);
    assert_eq!(extract_custom_css("@end_style\n@start_style\n.a { }"), None);
}

#[test]
fn the_default_style_has_its_measures() {
    let style = DiagramStyle::default();
    assert_eq!(style.margin, Num::from_int(30));
    assert_eq!(style.padding, Num::from_int(10));
    assert_eq!(style.font_size, Num::from_int(12));
    assert_eq!(style.char_width, Num::from_int(7));
    assert_eq!(style.spacing_x, Num::from_int(60));
    assert_eq!(style.spacing_y, Num::from_int(80));
    assert_eq!(style.arrow_thickness, Num::from_milli(1_500));
    assert_eq!(style.background_color, "#FFFFFF");
    let other = style.with_font_family("monospace");
    assert_eq!(other.font_family, "monospace");
    assert_eq!(other.margin, Num::from_int(30));
}

#[test]
fn strings_and_characters_convert_both_ways() {
    let cs = chars_of("a\u{e9}\u{4e16}!");
    assert_eq!(cs, vec!['a', '\u{e9}', '\u{4e16}', '!']);
    assert_eq!(string_of(&cs), "a\u{e9}\u{4e16}!");
    let mut out = String::from("x");
    push_chars(&mut out, &cs);
    assert_eq!(out, "xa\u{e9}\u{4e16}!");
}

#[test]
fn special_characters_are_escaped() {
    assert_eq!(escape_xml("a<b>&\"c'"), "a&lt;b&gt;&amp;&quot;c&#39;");
    assert_eq!(escape_xml(""), "");
    assert_eq!(escape_xml("&amp;"), "&amp;amp;");
}

#[test]
fn properties_are_read_from_blocks() {
    let props = CssProperties::from_css(
        ".box {\n  fill: red;\n  --rx: 4;\n  --shadow-dx: 1.5px;\n  --bad: wide;\n  --gap : -2.25 ;\n}\n.other {\n  --rx: 7;\n}\n--rx: 9;\n",
    );
    assert_eq!(props.get("box", "rx"), Some(Num::from_int(4)));
    assert_eq!(props.get("box", "shadow-dx"), Some(Num::from_milli(1_500)));
    assert_eq!(props.get("box", "gap"), Some(Num::from_milli(-2_250)));
    assert_eq!(props.get("box", "bad"), None);
    assert_eq!(props.get("other", "rx"), Some(Num::from_int(7)));
    assert_eq!(props.get("none", "rx"), None);
    assert_eq!(props.get_or("none", "rx", Num::from_int(3)), Num::from_int(3));
    assert_eq!(props.get_or("box", "rx", Num::from_int(3)), Num::from_int(4));
}

#[test]
fn nested_braces_keep_the_block_open() {
    let props = CssProperties::from_css(".a {\n@media {\n--x: 1;\n}\n--y: 2;\n}\n--z: 3;\n");
    assert_eq!(props.get("a", "x"), Some(Num::from_int(1)));
    assert_eq!(props.get("a", "y"), Some(Num::from_int(2)));
    assert_eq!(props.get("a", "z"), None);
}

#[test]
fn a_later_sheet_overrides_property_by_property() {
    let mut props = CssProperties::from_css(".class {\n--rx: 4;\n--ry: 5;\n}\n");
    props.merge_css(".class {\n--rx: 8;\n}\n");
    assert_eq!(props.get("class", "rx"), Some(Num::from_int(8)));
    props.merge_css(".class {\n--rx: 12;\n}\n");
    assert_eq!(props.get("class", "rx"), Some(Num::from_int(12)));
    assert_eq!(props.get("class", "ry"), Some(Num::from_int(5)));
}

#[test]
fn the_builder_resolves_the_cascade() {
    let style = DiagramStyle::default();
    let svg = SvgBuilder::new(
        Num::from_int(10),
        Num::from_int(20),
        &style,
        Some(".class {\n--rx: 8;\n--shadow-dx: 2;\n}\n"),
        Some(".class {\n--rx: 12;\n}\n"),
    );
    assert_eq!(svg.css_prop("class", "rx"), Some(Num::from_int(12)));
    assert_eq!(svg.css_prop("class", "ry"), Some(Num::from_int(4)));
    assert_eq!(svg.css_prop_or("class", "shadow-dy", Num::zero()), Num::zero());
    assert!(svg.has_shadow("class"));
    assert!(!svg.has_shadow("interface"));
    let only_file = SvgBuilder::new(
        Num::from_int(10),
        Num::from_int(20),
        &style,
        Some(".class {\n--rx: 8;\n}\n"),
        None,
    );
    assert_eq!(only_file.css_prop("class", "rx"), Some(Num::from_int(8)));
    let plain = SvgBuilder::new(Num::from_int(10), Num::from_int(20), &style, None, None);
    assert_eq!(plain.css_prop("class", "rx"), Some(Num::from_int(4)));
    assert!(plain.raw().starts_with(
        "<svg xmlns=\"http://www.w3.org/2000/svg\" width=\"10\" height=\"20\"><style type=\"text/css\">\n"
    ));
    assert!(plain
        .raw()
        .ends_with("\n</style><rect width=\"100%\" height=\"100%\" class=\"diagram-background\"/>"));
}

#[test]
fn one_property_is_read_from_the_text_of_a_sheet() {
    let css = ".first {\n--rx: 3;\n}\n.box {\n--other: 1;\n--rx: 4.5px;\n}\n.box {\n--rx: 9;\n}\n";
    assert_eq!(extract_css_property(css, "box", "rx"), Some(Num::from_milli(4_500)));
    assert_eq!(extract_css_property(css, "first", "rx"), Some(Num::from_int(3)));
    assert_eq!(extract_css_property(css, "box", "ry"), None);
    assert_eq!(extract_css_property(css, "none", "rx"), None);
}

fn fresh() -> SvgBuilder {
    SvgBuilder::new(Num::zero(), Num::zero(), &DiagramStyle::default(), None, None)
}

fn drawn(svg: &SvgBuilder, from: usize) -> String {
    svg.raw()[from..].to_string()
}

#[test]
fn primitives_write_their_markup() {
    let mut svg = fresh();
    let start = svg.raw().len();
    svg.rect_class(Num::from_int(1), Num::from_milli(2_500), Num::from_int(3), Num::from_int(4), "c");
    assert_eq!(drawn(&svg, start), "<rect x=\"1\" y=\"2.5\" width=\"3\" height=\"4\" class=\"c\"/>");

    let start = svg.raw().len();
    svg.rect_rounded_class(
        Num::from_int(1),
        Num::from_int(2),
        Num::from_int(3),
        Num::from_int(4),
        Num::from_int(5),
        Num::from_int(6),
        "c",
    );
    assert_eq!(
        drawn(&svg, start),
        "<rect x=\"1\" y=\"2\" width=\"3\" height=\"4\" rx=\"5\" ry=\"6\" class=\"c\"/>"
    );

    let start = svg.raw().len();
    svg.rect_rounded_class_filtered(
        Num::from_int(1),
        Num::from_int(2),
        Num::from_int(3),
        Num::from_int(4),
        Num::from_int(5),
        Num::from_int(6),
        "c",
        Some("f"),
    );
    assert_eq!(
        drawn(&svg, start),
        "<rect x=\"1\" y=\"2\" width=\"3\" height=\"4\" rx=\"5\" ry=\"6\" class=\"c\" filter=\"url(#f)\"/>"
    );

    let start = svg.raw().len();
    svg.line_class(Num::from_int(1), Num::from_int(2), Num::from_int(3), Num::from_int(-4), "l");
    assert_eq!(drawn(&svg, start), "<line x1=\"1\" y1=\"2\" x2=\"3\" y2=\"-4\" class=\"l\"/>");

    let start = svg.raw().len();
    svg.text_class(Num::from_int(1), Num::from_int(2), "a < b", "t");
    assert_eq!(drawn(&svg, start), "<text x=\"1\" y=\"2\" class=\"t\">a &lt; b</text>");

    let points = [(Num::from_int(1), Num::from_int(2)), (Num::from_milli(3_250), Num::from_int(4))];
    let start = svg.raw().len();
    svg.polyline_class(&points, "p", "url(#m)");
    assert_eq!(
        drawn(&svg, start),
        "<polyline points=\"1,2 3.25,4\" class=\"p\" marker-end=\"url(#m)\"/>"
    );
    let start = svg.raw().len();
    svg.polyline_class(&points, "p", "");
    assert_eq!(drawn(&svg, start), "<polyline points=\"1,2 3.25,4\" class=\"p\"/>");
    let start = svg.raw().len();
    svg.polygon_class(&points, "g");
    assert_eq!(drawn(&svg, start), "<polygon points=\"1,2 3.25,4\" class=\"g\"/>");
    let start = svg.raw().len();
    svg.polygon_class(&[], "g");
    assert_eq!(drawn(&svg, start), "<polygon points=\"\" class=\"g\"/>");

    let start = svg.raw().len();
    svg.push("<g/>");
    assert_eq!(drawn(&svg, start), "<g/>");
    assert!(svg.finish().ends_with("<g/></svg>"));
}

#[test]
fn plain_primitives_write_their_markup() {
    let style = DiagramStyle::default().with_font_family("mono").with_font_color("#123456");
    let mut svg = fresh();
    let start = svg.raw().len();
    svg.line(
        Num::from_int(1),
        Num::from_int(2),
        Num::from_int(3),
        Num::from_int(4),
        "#000",
        Num::from_milli(1_500),
        true,
    );
    assert_eq!(
        drawn(&svg, start),
        "<line x1=\"1\" y1=\"2\" x2=\"3\" y2=\"4\" stroke=\"#000\" stroke-width=\"1.5\" stroke-dasharray=\"5,5\"/>"
    );
    let start = svg.raw().len();
    svg.rect(Num::from_int(1), Num::from_int(2), Num::from_int(3), Num::from_int(4), "#fff", "#000");
    assert_eq!(
        drawn(&svg, start),
        "<rect x=\"1\" y=\"2\" width=\"3\" height=\"4\" fill=\"#fff\" stroke=\"#000\" stroke-width=\"1\"/>"
    );
    let start = svg.raw().len();
    svg.text(Num::from_int(1), Num::from_int(2), "hi", &style);
    assert_eq!(
        drawn(&svg, start),
        "<text x=\"1\" y=\"2\" font-family=\"mono\" font-size=\"12\" fill=\"#123456\">hi</text>"
    );
    let start = svg.raw().len();
    svg.text_centered(Num::from_int(1), Num::from_int(2), "hi", &style, true);
    assert_eq!(
        drawn(&svg, start),
        "<text x=\"1\" y=\"2\" font-family=\"mono\" font-size=\"12\" fill=\"#123456\" text-anchor=\"middle\" font-weight=\"bold\">hi</text>"
    );
    let points = [(Num::from_int(1), Num::from_int(2)), (Num::from_int(3), Num::from_int(4))];
    let start = svg.raw().len();
    svg.polyline(&points, "#000", Num::from_int(2), false, "url(#m)");
    assert_eq!(
        drawn(&svg, start),
        "<polyline points=\"1,2 3,4\" fill=\"none\" stroke=\"#000\" stroke-width=\"2\" marker-end=\"url(#m)\"/>"
    );
}
