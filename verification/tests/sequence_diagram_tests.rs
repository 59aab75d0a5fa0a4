use pill_uml::sequence_diagram::model::Element;
use pill_uml::sequence_diagram::parser::{read_message, sort_by_order};
use pill_uml::sequence_diagram::{
    render, render_with_file_css, ArrowStyle, Parser, Participant, SequenceDiagram,
};
use pill_uml::text::chars_of;
use pill_uml::{render_diagram, DiagramStyle, Num};

fn parse(source: &str) -> SequenceDiagram {
    Parser::new().parse(source)
}

#[test]
fn test_parse_basic() {
    let source = "@start_uml\nparticipant A\nA -> B: hello\n@end_uml";
    let diagram = Parser::new().parse(source);
    assert_eq!(diagram.participants.len(), 2);
    assert_eq!(diagram.elements.len(), 1);
}

#[test]
fn test_self_message() {
    let source = "@start_uml\nA -> A: self\n@end_uml";
    let diagram = Parser::new().parse(source);
    if let Element::Message(msg) = &diagram.elements[0] {
        assert_eq!(msg.from, msg.to);
    }
}

fn count(haystack: &str, needle: &str) -> usize {
    haystack.matches(needle).count()
}

#[test]
fn ping() {
    let source = "@start_uml\nparticipant A\nparticipant B\nA -> B: ping\n@end_uml";
    let d = parse(source);
    assert_eq!(d.participants.len(), 2);
    assert_eq!(d.participants[0].name, "A");
    assert_eq!(d.participants[0].order, 0);
    assert_eq!(d.participants[1].name, "B");
    assert_eq!(d.participants[1].order, 1);
    assert_eq!(d.elements.len(), 1);
    match &d.elements[0] {
        Element::Message(m) => {
            assert_eq!(m.from, "A");
            assert_eq!(m.to, "B");
            assert_eq!(m.text, "ping");
            assert_eq!(m.style, ArrowStyle::Solid);
        },
        other => panic!("no message: {:?}", other),
    }
    let svg = render(source, &DiagramStyle::default());
    assert!(svg.contains(">ping</text>"));
    assert_eq!(count(&svg, "marker-end=\"url(#seq-arrow)\""), 1);
    assert_eq!(count(&svg, "marker-end="), 1);
}

#[test]
fn an_end_too_many_draws_no_block() {
    let source = "@start_uml\nalt X\nA -> B: msg\nend\nend\n@end_uml";
    let d = parse(source);
    assert_eq!(d.elements.len(), 4);
    assert!(matches!(d.elements[2], Element::AltEnd));
    assert!(matches!(d.elements[3], Element::AltEnd));
    let svg = render(source, &DiagramStyle::default());
    assert_eq!(count(&svg, "class=\"alt-box\""), 1);
    assert_eq!(count(&svg, "class=\"alt-label-box\""), 1);
    assert!(svg.contains("class=\"alt-condition-text\">[X]</text>"));
}

#[test]
fn blocks_nest_and_a_stray_else_draws_nothing() {
    let source = "@start_uml\nelse stray\nend\nalt a\nalt b\nX -> Y\nelse c\nend\nelse\nend\n@end_uml";
    let svg = render(source, &DiagramStyle::default());
    assert_eq!(count(&svg, "class=\"alt-box\""), 2);
    assert_eq!(count(&svg, "class=\"alt-divider\""), 2);
    assert!(!svg.contains("[stray]"));
    assert!(svg.contains("class=\"alt-condition-text diagram-text\">[c]</text>"));
}

#[test]
fn every_arrow_gives_its_style() {
    let cases = [
        ("->", ArrowStyle::Solid),
        ("-->", ArrowStyle::Dashed),
        ("->>", ArrowStyle::SolidOpen),
        ("-->>", ArrowStyle::DashedOpen),
    ];
    for (token, style) in cases {
        let m = read_message(&chars_of(&format!("Alice {} Bob : hi there ", token))).unwrap();
        assert_eq!(m.style, style, "token {}", token);
        assert_eq!(m.from, "Alice");
        assert_eq!(m.to, "Bob");
        assert_eq!(m.text, "hi there");
    }
    let bare = read_message(&chars_of("A->B")).unwrap();
    assert_eq!((bare.from.as_str(), bare.to.as_str(), bare.text.as_str()), ("A", "B", ""));
    assert!(read_message(&chars_of("-> B: x")).is_none());
    assert!(read_message(&chars_of("A -> : x")).is_none());
    assert!(read_message(&chars_of("A B")).is_none());
}

#[test]
fn declarations_take_their_order() {
    let d = parse(
        "@start_uml\nparticipant Last order 9\nactor First order -1\nparticipant Mid\nparticipant Odd order x\nparticipant Last order 0\nMid -> New: hi\n@end_uml",
    );
    let seen: Vec<(&str, i32)> = d.participants.iter().map(|p| (p.name.as_str(), p.order)).collect();
    assert_eq!(seen, vec![("First", -1), ("Mid", 2), ("Odd", 3), ("New", 4), ("Last", 9)]);
}

#[test]
fn participants_of_one_rank_keep_their_order() {
    let make = |name: &str, order: i32| Participant {
        name: name.to_string(),
        order,
        x: Num::zero(),
        width: Num::zero(),
    };
    let ps = vec![make("c", 2), make("a", 1), make("d", 2), make("b", 1), make("e", 0)];
    let sorted = sort_by_order(&ps);
    let names: Vec<&str> = sorted.iter().map(|p| p.name.as_str()).collect();
    assert_eq!(names, vec!["e", "a", "b", "c", "d"]);
    assert!(sort_by_order(&Vec::new()).is_empty());
}

#[test]
fn elements_are_read_in_order() {
    let d = parse(
        "@start_uml\n...later...\n...\nalt  ready \nelse\nelse  not yet\nend\nnonsense\n@end_uml\nA -> B",
    );
    assert_eq!(d.elements.len(), 6);
    assert!(matches!(&d.elements[0], Element::Divider(t) if t == "later"));
    assert!(matches!(&d.elements[1], Element::Divider(t) if t.is_empty()));
    assert!(matches!(&d.elements[2], Element::AltStart(c) if c == "ready"));
    assert!(matches!(&d.elements[3], Element::ElseBranch(None)));
    assert!(matches!(&d.elements[4], Element::ElseBranch(Some(c)) if c == "not yet"));
    assert!(matches!(&d.elements[5], Element::AltEnd));
    assert!(d.participants.is_empty());
}

#[test]
fn participants_stand_side_by_side() {
    let mut d = parse(
        "@start_uml\nparticipant A\nparticipant AParticipantWithALongLongName\nA -> B: ping\n...wait...\n@end_uml",
    );
    let style = DiagramStyle::default();
    d.layout(&style);
    assert_eq!(d.participants[0].width, Num::from_int(80));
    assert_eq!(d.participants[0].x, Num::from_int(70));
    assert_eq!(d.participants[1].width, Num::from_int(29 * 7 + 40));
    assert_eq!(d.participants[1].x, Num::from_milli(180_000 + 121_500));
    assert_eq!(d.participants[2].x, Num::from_int(180 + 243 + 40));
    let (w, h) = d.calculate_dimensions(&style);
    assert_eq!(w, Num::from_int(463 + 40 + 30));
    assert_eq!(h, Num::from_int(60 + 70 + 2 * 40 + 40));
    let before: Vec<(Num, Num)> = d.participants.iter().map(|p| (p.x, p.width)).collect();
    d.layout(&style);
    let after: Vec<(Num, Num)> = d.participants.iter().map(|p| (p.x, p.width)).collect();
    assert_eq!(before, after);
}

#[test]
fn an_empty_diagram_has_a_size() {
    let d = parse("");
    let (w, h) = d.calculate_dimensions(&DiagramStyle::default());
    assert_eq!(w, Num::from_int(200));
    assert_eq!(h, Num::from_int(170));
}

#[test]
fn a_sequence_drawing_has_its_parts_in_order() {
    let source = "@start_uml\nparticipant A\nparticipant B\nA -> B: ping\nB -->> B: think\n...pause...\n@end_uml";
    let svg = render_diagram(source);
    assert!(svg.starts_with("<svg xmlns=\"http://www.w3.org/2000/svg\" width=\"290\" height=\"290\">"));
    let defs_at = svg.find("<defs>\n<marker id=\"seq-arrow\"").unwrap();
    let lifeline_at = svg.find("<line x1=\"70\" y1=\"65\" x2=\"70\" y2=\"225\" class=\"lifeline\"/>").unwrap();
    let top_at = svg.find("<rect x=\"30\" y=\"30\" width=\"80\" height=\"35\" class=\"participant\"/><text x=\"70\" y=\"51.5\" class=\"participant-text\">A</text>").unwrap();
    let bottom_at = svg.find("<rect x=\"30\" y=\"225\" width=\"80\" height=\"35\" class=\"participant\"/>").unwrap();
    let arrow_at = svg.find("<polyline points=\"70,95 220,95\" class=\"message\" marker-end=\"url(#seq-arrow)\"/><text x=\"145\" y=\"90\" class=\"message-text\">ping</text>").unwrap();
    let loop_at = svg.find("<polyline points=\"220,135 250,135 250,155 220,155\" class=\"message message-dashed\" marker-end=\"url(#seq-arrow-open)\"/><text x=\"255\" y=\"149\" class=\"message-text\">think</text>").unwrap();
    let divider_at = svg.find("<line x1=\"30\" y1=\"175\" x2=\"260\" y2=\"175\" class=\"divider-line\"/><rect x=\"117.5\" y=\"165\" width=\"55\" height=\"20\" class=\"divider-box\"/><text x=\"145\" y=\"179\" class=\"divider-text\">pause</text>").unwrap();
    assert!(defs_at < lifeline_at);
    assert!(lifeline_at < top_at);
    assert!(top_at < bottom_at);
    assert!(bottom_at < arrow_at);
    assert!(arrow_at < loop_at);
    assert!(loop_at < divider_at);
    assert!(svg.ends_with("</svg>"));
}

#[test]
fn a_block_is_drawn_round_its_elements() {
    let source = "@start_uml\nA -> B: one\nalt ok\nA -> B: two\nelse bad\nend\n@end_uml";
    let svg = render(source, &DiagramStyle::default());
    assert!(svg.contains("<text x=\"25\" y=\"150\" class=\"alt-condition-text\">[ok]</text>"));
    assert!(svg.contains("<line x1=\"20\" y1=\"215\" x2=\"270\" y2=\"215\" class=\"alt-divider\"/><text x=\"25\" y=\"230\" class=\"alt-condition-text diagram-text\">[bad]</text>"));
    assert!(svg.contains("<rect x=\"20\" y=\"135\" width=\"250\" height=\"100\" class=\"alt-box\"/><polygon points=\"20,135 50,135 60,150 20,150\" class=\"alt-label-box\"/><text x=\"25\" y=\"146\" class=\"alt-label-text\">alt</text>"));
}

#[test]
fn an_external_sheet_lies_between_the_built_in_and_the_inline_one() {
    let source = "@start_style\n.message { stroke: blue; }\n@end_style\n@start_uml\nA -> B\n@end_uml";
    let svg = render_with_file_css(source, &DiagramStyle::default(), Some(".message { stroke: red; }"));
    let file_at = svg.find("\n/* Style file overrides */\n.message { stroke: red; }").unwrap();
    let inline_at = svg.find("\n/* Inline style overrides */\n.message { stroke: blue; }").unwrap();
    assert!(file_at < inline_at);
}
