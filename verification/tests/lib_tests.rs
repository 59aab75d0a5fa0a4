use pill_uml::{
    create_diagram, detect_diagram_type, render_diagram, render_diagram_styled, DiagramBuilder,
    DiagramStyle, DiagramType, Num,
};

#[test]
fn test_detect_sequence_diagram() {
    let source = "@start_uml\nparticipant A\nA -> B: msg\n@end_uml";
    assert_eq!(detect_diagram_type(source), DiagramType::Sequence);
}

#[test]
fn test_detect_class_diagram() {
    let source = "@start_uml\nclass Foo {}\n@end_uml";
    assert_eq!(detect_diagram_type(source), DiagramType::Class);
}

#[test]
fn test_render_sequence() {
    let source = "@start_uml\nA -> B: hello\n@end_uml";
    let svg = render_diagram(source);
    assert!(svg.contains("<svg"));
    assert!(svg.contains("hello"));
}

#[test]
fn test_render_class() {
    let source = "@start_uml\nclass Engine {}\n@end_uml";
    let svg = render_diagram(source);
    assert!(svg.contains("<svg"));
    assert!(svg.contains("Engine"));
}

#[test]
fn test_custom_css() {
    let source = "@start_style\n.participant { fill: #ff0000; }\n@end_style\n@start_uml\nA -> B: test\n@end_uml";
    let svg = render_diagram(source);
    assert!(svg.contains("fill: #ff0000"));
}

#[test]
fn the_first_typical_line_decides_the_kind() {
    assert_eq!(detect_diagram_type(""), DiagramType::Sequence);
    assert_eq!(detect_diagram_type("A -> B: x\nclass Foo"), DiagramType::Sequence);
    assert_eq!(detect_diagram_type("nothing\n  Dog --|> Animal : is"), DiagramType::Class);
    assert_eq!(detect_diagram_type("A -> B\nWheel --o Car"), DiagramType::Class);
    assert_eq!(detect_diagram_type("actor Bob\ninterface X"), DiagramType::Sequence);
}

fn count(haystack: &str, needle: &str) -> usize {
    haystack.matches(needle).count()
}

#[test]
fn a_class_drawing_has_its_parts_in_order() {
    let source = "@start_uml\nclass Animal {\n+ name: string\n}\nclass Dog\nDog --|> Animal : is a\n@end_uml";
    let svg = render_diagram(source);
    assert!(svg.starts_with("<svg xmlns=\"http://www.w3.org/2000/svg\" width=\"180\" height=\"243\">"));
    assert!(svg.ends_with("</svg>"));
    let style_at = svg.find("<style type=\"text/css\">").unwrap();
    let defs_at = svg.find("<defs>").unwrap();
    let line_at = svg.find("<polyline points=\"90,163 90,83\" class=\"relationship\" marker-end=\"url(#cls-triangle)\"/>").unwrap();
    let label_at = svg.find("<text x=\"90\" y=\"78\" class=\"relationship-label\">is a</text>").unwrap();
    let box_at = svg.find("<rect x=\"30\" y=\"30\" width=\"120\" height=\"53\" rx=\"4\" ry=\"4\" class=\"class\"/>").unwrap();
    let name_at = svg.find("<text x=\"90\" y=\"46.5\" class=\"class-name\">Animal</text>").unwrap();
    let separator_at = svg.find("<line x1=\"30\" y1=\"55\" x2=\"150\" y2=\"55\" class=\"class-separator\"/>").unwrap();
    let field_at = svg.find("<text x=\"40\" y=\"77\" class=\"class-field-name\">+name: string</text>").unwrap();
    let second_at = svg.find("<line x1=\"30\" y1=\"81\" x2=\"150\" y2=\"81\" class=\"class-separator\"/>").unwrap();
    let dog_at = svg.find("<rect x=\"30\" y=\"163\" width=\"120\" height=\"50\" rx=\"4\" ry=\"4\" class=\"class\"/>").unwrap();
    assert!(style_at < defs_at);
    assert!(defs_at < line_at);
    assert!(line_at < label_at);
    assert!(label_at < box_at);
    assert!(box_at < name_at);
    assert!(name_at < separator_at);
    assert!(separator_at < field_at);
    assert!(field_at < second_at);
    assert!(second_at < dog_at);
}

#[test]
fn a_shadow_from_a_sheet_gives_a_filter() {
    let source = "@start_style\n.interface {\n--shadow-dx: 2;\n--shadow-blur: 1.5;\n}\n@end_style\n@start_uml\ninterface Shape <<api>> {\n+ area(): f64\n}\nclass Other\n@end_uml";
    let svg = render_diagram(source);
    assert!(svg.contains("<filter id=\"interface-shadow\" x=\"-50%\" y=\"-50%\" width=\"200%\" height=\"200%\">\n<feDropShadow dx=\"2\" dy=\"0\" stdDeviation=\"1.5\" flood-opacity=\"0.3\"/>\n</filter>\n"));
    assert!(!svg.contains("<filter id=\"class-shadow\""));
    assert!(svg.contains("class=\"interface\" filter=\"url(#interface-shadow)\"/>"));
    assert!(svg.contains("class=\"class-stereotype\">&lt;&lt;api&gt;&gt;</text>"));
    assert!(svg.contains("<text x=\"90\" y=\"56.5\" class=\"interface-name\">Shape</text>"));
    assert!(svg.contains("<text x=\"40\" y=\"77\" class=\"interface-method-name\">+area(): f64</text>"));
    assert_eq!(count(&svg, "class=\"class-separator\""), 1);
    assert_eq!(count(&svg, "class=\"interface-separator\""), 1);
}

#[test]
fn the_builder_layers_the_sheets() {
    let source = "@start_style\n.class {\n--rx: 12;\n}\n@end_style\n@start_uml\nclass Engine\n@end_uml";
    let svg = create_diagram(source)
        .with_style(".class {\n--rx: 8;\n--ry: 6;\n}")
        .with_style(".class {\n--ry: 7;\n}")
        .render();
    assert!(svg.contains("rx=\"12\" ry=\"7\" class=\"class\""));
    let file_at = svg.find("\n/* Style file overrides */\n.class {\n--rx: 8;\n--ry: 6;\n}\n.class {\n--ry: 7;\n}").unwrap();
    let inline_at = svg.find("\n/* Inline style overrides */\n.class {\n--rx: 12;\n}").unwrap();
    assert!(file_at < inline_at);
    let external_only = DiagramBuilder::new("@start_uml\nclass Engine\n@end_uml")
        .with_style(".class {\n--rx: 8;\n}")
        .render();
    assert!(external_only.contains("rx=\"8\" ry=\"4\" class=\"class\""));
    let plain = create_diagram("@start_uml\nclass Engine\n@end_uml").render();
    assert!(plain.contains("rx=\"4\" ry=\"4\" class=\"class\""));
    assert_eq!(plain, render_diagram("@start_uml\nclass Engine\n@end_uml"));
}

#[test]
fn the_settings_change_the_layout() {
    let mut style = DiagramStyle::default();
    style.margin = Num::from_int(5);
    style.char_width = Num::from_int(20);
    let source = "@start_uml\nclass Engine\n@end_uml";
    let svg = render_diagram_styled(source, &style);
    assert!(svg.contains("<rect x=\"5\" y=\"5\" width=\"140\" height=\"50\""));
    let built = create_diagram(source).with_diagram_style(style).render();
    assert_eq!(built, svg);
}
