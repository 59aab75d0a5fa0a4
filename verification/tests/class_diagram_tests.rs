use pill_uml::class_diagram::layout::{format_member, format_method_text};
use pill_uml::class_diagram::parser::read_relation;
use pill_uml::class_diagram::route::calculate_path;
use pill_uml::class_diagram::{
    is_class_diagram, ClassDef, ClassDiagram, ClassType, Method, Parser, RelationType, Visibility,
};
use pill_uml::text::chars_of;
use pill_uml::{DiagramStyle, Num};

fn parse(source: &str) -> ClassDiagram {
    Parser::new().parse(source)
}

fn class_named<'a>(d: &'a ClassDiagram, name: &str) -> &'a ClassDef {
    d.classes.iter().find(|c| c.name == name).unwrap()
}

#[test]
fn test_parse_class() {
    let source = "@start_uml\nclass Foo {\n- x: i32\n+ bar(): void\n}\n@end_uml";
    let diagram = Parser::new().parse(source);
    assert_eq!(diagram.classes.len(), 1);
    assert_eq!(diagram.classes[0].fields.len(), 1);
    assert_eq!(diagram.classes[0].methods.len(), 1);
}

#[test]
fn test_parse_relationship() {
    let source = "@start_uml\nA --|> B\n@end_uml";
    let diagram = Parser::new().parse(source);
    assert_eq!(diagram.relationships.len(), 1);
    assert_eq!(diagram.relationships[0].rel_type, RelationType::Inheritance);
}

#[test]
fn test_is_class_diagram() {
    assert!(is_class_diagram("class Foo {}"));
    assert!(!is_class_diagram("participant A\nA -> B: msg"));
}

#[test]
fn members_are_read_with_visibility_type_and_markers() {
    let d = parse(
        "@start_uml\nabstract class Shape {\n# area: f64 {static}\n~ id\n+ draw(ctx: Canvas): void {abstract}\n- count(): usize {classifier}\nplain()\n}\n@end_uml",
    );
    let shape = class_named(&d, "Shape");
    assert_eq!(shape.class_type, ClassType::Abstract);
    assert_eq!(shape.fields.len(), 2);
    assert_eq!(shape.fields[0].visibility, Some(Visibility::Protected));
    assert_eq!(shape.fields[0].name, "area");
    assert_eq!(shape.fields[0].field_type.as_deref(), Some("f64"));
    assert!(shape.fields[0].is_static);
    assert_eq!(shape.fields[1].visibility, Some(Visibility::Package));
    assert_eq!(shape.fields[1].name, "id");
    assert_eq!(shape.fields[1].field_type, None);
    assert!(!shape.fields[1].is_static);
    assert_eq!(shape.methods.len(), 3);
    assert_eq!(shape.methods[0].visibility, Some(Visibility::Public));
    assert_eq!(shape.methods[0].name, "draw");
    assert_eq!(shape.methods[0].params, "ctx: Canvas");
    assert_eq!(shape.methods[0].return_type.as_deref(), Some("void"));
    assert!(shape.methods[0].is_abstract);
    assert!(!shape.methods[0].is_static);
    assert_eq!(shape.methods[1].visibility, Some(Visibility::Private));
    assert_eq!(shape.methods[1].name, "count");
    assert_eq!(shape.methods[1].params, "");
    assert_eq!(shape.methods[1].return_type.as_deref(), Some("usize"));
    assert!(shape.methods[1].is_static);
    assert_eq!(shape.methods[2].visibility, None);
    assert_eq!(shape.methods[2].name, "plain");
    assert_eq!(shape.methods[2].return_type, None);
}

#[test]
fn header_gives_name_and_stereotype() {
    let d = parse("@start_uml\nclass Foo<<svc>> {\n}\n@end_uml");
    assert_eq!(d.classes.len(), 1);
    assert_eq!(d.classes[0].name, "Foo");
    assert_eq!(d.classes[0].stereotype.as_deref(), Some("svc"));
    assert_eq!(d.classes[0].class_type, ClassType::Class);
}

#[test]
fn header_kinds_are_told_apart() {
    let d = parse(
        "@start_uml\ninterface Shape\nabstract class Base\nabstract Other\nenum Color\nclass Plain << entity >>\n@end_uml",
    );
    assert_eq!(d.classes.len(), 5);
    assert_eq!(class_named(&d, "Shape").class_type, ClassType::Interface);
    assert_eq!(class_named(&d, "Base").class_type, ClassType::Abstract);
    assert_eq!(class_named(&d, "Other").class_type, ClassType::Abstract);
    assert_eq!(class_named(&d, "Color").class_type, ClassType::Enum);
    assert_eq!(class_named(&d, "Plain").stereotype.as_deref(), Some("entity"));
}

#[test]
fn closing_quotes_before_the_opening_ones_are_no_stereotype_end() {
    let d = parse("@start_uml\nclass A>>B <<s>>\n@end_uml");
    assert_eq!(d.classes.len(), 1);
    assert_eq!(d.classes[0].name, "A>>B");
    assert_eq!(d.classes[0].stereotype.as_deref(), Some("s"));
}

#[test]
fn a_later_declaration_replaces_the_earlier_one_in_its_place() {
    let d = parse("@start_uml\nclass A {\n+ x\n}\nclass B\ninterface A\n@end_uml");
    assert_eq!(d.classes.len(), 2);
    assert_eq!(d.classes[0].name, "A");
    assert_eq!(d.classes[0].class_type, ClassType::Interface);
    assert!(d.classes[0].fields.is_empty());
    assert_eq!(d.classes[1].name, "B");
}

#[test]
fn direction_follows_the_token() {
    let right = parse("@start_uml\nA --|> B\n@end_uml");
    assert_eq!(right.relationships[0].from, "A");
    assert_eq!(right.relationships[0].to, "B");
    let left = parse("@start_uml\nB <|-- A\n@end_uml");
    assert_eq!(left.relationships[0].from, "A");
    assert_eq!(left.relationships[0].to, "B");
    assert_eq!(left.relationships[0].rel_type, RelationType::Inheritance);
}

#[test]
fn every_token_gives_its_kind_and_direction() {
    let cases: [(&str, RelationType, bool); 13] = [
        ("--|>", RelationType::Inheritance, false),
        ("<|--", RelationType::Inheritance, true),
        ("..|>", RelationType::Realization, false),
        ("<|..", RelationType::Realization, true),
        ("*--", RelationType::Composition, false),
        ("--*", RelationType::Composition, false),
        ("o--", RelationType::Aggregation, false),
        ("--o", RelationType::Aggregation, false),
        ("..>", RelationType::Dependency, false),
        ("<..", RelationType::Dependency, true),
        ("-->", RelationType::DirectedAssoc, false),
        ("<--", RelationType::DirectedAssoc, true),
        ("--", RelationType::Association, false),
    ];
    for (token, kind, reversed) in cases {
        let line = chars_of(&format!("Left {} Right : uses", token));
        let r = read_relation(&line).unwrap();
        assert_eq!(r.rel_type, kind, "token {}", token);
        if reversed {
            assert_eq!((r.from.as_str(), r.to.as_str()), ("Right", "Left"), "token {}", token);
        } else {
            assert_eq!((r.from.as_str(), r.to.as_str()), ("Left", "Right"), "token {}", token);
        }
        assert_eq!(r.label.as_deref(), Some("uses"));
    }
}

#[test]
fn a_line_without_two_operands_states_no_relationship() {
    assert!(read_relation(&chars_of("--|> B")).is_none());
    assert!(read_relation(&chars_of("A --")).is_none());
    assert!(read_relation(&chars_of("A <|-- : label")).is_none());
    assert!(read_relation(&chars_of("A B")).is_none());
    let later = read_relation(&chars_of("A --|>")).unwrap();
    assert_eq!(later.rel_type, RelationType::Association);
    assert_eq!((later.from.as_str(), later.to.as_str()), ("A", "|>"));
}

#[test]
fn relationship_alone_creates_both_entities() {
    let d = parse("@start_uml\nA --|> B\n@end_uml");
    assert_eq!(d.classes.len(), 2);
    assert_eq!(d.classes[0].name, "A");
    assert_eq!(d.classes[1].name, "B");
    for c in &d.classes {
        assert_eq!(c.class_type, ClassType::Class);
        assert!(c.fields.is_empty());
        assert!(c.methods.is_empty());
        assert_eq!(c.stereotype, None);
    }
}

#[test]
fn animal_and_dog() {
    let d = parse("@start_uml\nclass Animal {\n+ name: string\n}\nclass Dog\nDog --|> Animal\n@end_uml");
    assert_eq!(d.classes.len(), 2);
    let dog = class_named(&d, "Dog");
    assert!(dog.fields.is_empty());
    let animal = class_named(&d, "Animal");
    assert_eq!(animal.fields.len(), 1);
    assert_eq!(animal.fields[0].visibility, Some(Visibility::Public));
    assert_eq!(animal.fields[0].name, "name");
    assert_eq!(animal.fields[0].field_type.as_deref(), Some("string"));
    assert_eq!(d.relationships.len(), 1);
    assert_eq!(d.relationships[0].from, "Dog");
    assert_eq!(d.relationships[0].to, "Animal");
    assert_eq!(d.relationships[0].rel_type, RelationType::Inheritance);
}

#[test]
fn lines_outside_the_markers_and_comments_are_passed_over() {
    let d = parse("class Before\n@start_uml\n// class Hidden\nskinparam x\n\nclass Seen\n@end_uml\nclass After");
    assert_eq!(d.classes.len(), 1);
    assert_eq!(d.classes[0].name, "Seen");
}

#[test]
fn every_end_of_a_relationship_names_an_entity() {
    let d = parse("@start_uml\nA --|> B\nB *-- C\nD <.. A : needs\nclass E\n@end_uml");
    for r in &d.relationships {
        assert!(d.classes.iter().any(|c| c.name == r.from));
        assert!(d.classes.iter().any(|c| c.name == r.to));
    }
    let mut names: Vec<&str> = d.classes.iter().map(|c| c.name.as_str()).collect();
    assert_eq!(names, vec!["A", "B", "C", "D", "E"]);
    names.dedup();
    assert_eq!(names.len(), 5);
}

#[test]
fn member_lines_are_formatted() {
    assert_eq!(format_member(Some(Visibility::Public), "name", Some("string")), "+name: string");
    assert_eq!(format_member(None, "id", None), "id");
    let m = Method {
        visibility: Some(Visibility::Protected),
        name: "run".to_string(),
        params: "n: u8".to_string(),
        return_type: Some("bool".to_string()),
        is_static: false,
        is_abstract: false,
    };
    assert_eq!(format_method_text(&m), "#run(n: u8): bool");
    let bare = Method { visibility: None, return_type: None, ..m };
    assert_eq!(format_method_text(&bare), "run(n: u8)");
}

#[test]
fn visibility_symbols() {
    assert_eq!(Visibility::from_char('+'), Some(Visibility::Public));
    assert_eq!(Visibility::from_char('-'), Some(Visibility::Private));
    assert_eq!(Visibility::from_char('#'), Some(Visibility::Protected));
    assert_eq!(Visibility::from_char('~'), Some(Visibility::Package));
    assert_eq!(Visibility::from_char('x'), None);
    assert_eq!(Visibility::Public.symbol(), "+");
    assert_eq!(Visibility::Private.symbol(), "-");
    assert_eq!(Visibility::Protected.symbol(), "#");
    assert_eq!(Visibility::Package.symbol(), "~");
}

fn n(v: i32) -> Num {
    Num::from_int(v)
}

#[test]
fn sizes_follow_the_texts() {
    let mut d = parse(
        "@start_uml\nclass Animal {\n+ name: string\n}\nclass Dog\nclass AVeryLongEntityNameThatIsWide\n@end_uml",
    );
    d.layout(&DiagramStyle::default());
    let animal = class_named(&d, "Animal");
    assert_eq!(animal.width, n(120));
    assert_eq!(animal.height, n(53));
    let dog = class_named(&d, "Dog");
    assert_eq!(dog.width, n(120));
    assert_eq!(dog.height, n(50));
    let wide = class_named(&d, "AVeryLongEntityNameThatIsWide");
    assert_eq!(wide.width, n(29 * 7 + 20));
}

#[test]
fn the_stereotype_counts_for_the_width() {
    let mut d = parse("@start_uml\nclass A <<a stereotype of twenty-nine>>\n@end_uml");
    d.layout(&DiagramStyle::default());
    assert_eq!(d.classes[0].stereotype.as_deref().map(|s| s.len()), Some(27));
    assert_eq!(d.classes[0].width, n(27 * 7 + 20));
}

#[test]
fn layers_follow_the_hierarchy() {
    let mut d = parse(
        "@start_uml\nclass Animal {\n+ name: string\n}\nclass Dog\nclass Puppy\nclass Cat\nDog --|> Animal\nPuppy --|> Dog\nCat --|> Animal\n@end_uml",
    );
    assert_eq!(d.assign_layers(), vec![0, 1, 2, 1]);
    d.layout(&DiagramStyle::default());
    let animal = class_named(&d, "Animal");
    assert_eq!((animal.x, animal.y), (n(30), n(30)));
    let dog = class_named(&d, "Dog");
    assert_eq!((dog.x, dog.y), (n(30), n(30 + 53 + 80)));
    let cat = class_named(&d, "Cat");
    assert_eq!((cat.x, cat.y), (n(30 + 120 + 60), n(163)));
    let puppy = class_named(&d, "Puppy");
    assert_eq!((puppy.x, puppy.y), (n(30), n(163 + 50 + 80)));
    let (w, h) = d.bounds(&DiagramStyle::default());
    assert_eq!(w, n(210 + 120 + 30));
    assert_eq!(h, n(293 + 50 + 30));
}

#[test]
fn the_shortest_way_from_a_root_gives_the_layer() {
    let d = parse("@start_uml\nclass R\nclass A\nclass B\nclass C\nA --|> R\nB --|> A\nC --|> B\nR *-- C\n@end_uml");
    assert_eq!(d.assign_layers(), vec![0, 1, 2, 1]);
}

#[test]
fn the_first_entity_is_the_root_where_every_entity_has_a_parent() {
    let d = parse("@start_uml\nA --|> B\nB --|> A\nclass C\nC --|> C\n@end_uml");
    assert_eq!(d.assign_layers(), vec![0, 1, 2]);
}

#[test]
fn an_entity_out_of_reach_stands_below_the_deepest() {
    let d = parse("@start_uml\nclass R\nA --|> R\nX --|> Y\nY --|> X\n@end_uml");
    assert_eq!(d.assign_layers(), vec![0, 1, 2, 2]);
}

#[test]
fn layout_twice_is_layout_once() {
    let mut d = parse(
        "@start_uml\nclass Animal {\n+ name: string\n}\nDog --|> Animal\nCat --|> Animal\nAnimal *-- Leg\n@end_uml",
    );
    let style = DiagramStyle::default();
    d.layout(&style);
    let once: Vec<(Num, Num, Num, Num)> =
        d.classes.iter().map(|c| (c.x, c.y, c.width, c.height)).collect();
    d.layout(&style);
    let twice: Vec<(Num, Num, Num, Num)> =
        d.classes.iter().map(|c| (c.x, c.y, c.width, c.height)).collect();
    assert_eq!(once, twice);
}

fn boxed(x: i32, y: i32, w: i32, h: i32) -> ClassDef {
    ClassDef {
        name: String::new(),
        class_type: ClassType::Class,
        fields: Vec::new(),
        methods: Vec::new(),
        stereotype: None,
        x: n(x),
        y: n(y),
        width: n(w),
        height: n(h),
    }
}

fn half(v: i64) -> Num {
    Num::from_milli(v * 500)
}

#[test]
fn a_hierarchy_between_aligned_entities_is_a_straight_line() {
    let dog = boxed(30, 163, 120, 50);
    let animal = boxed(30, 30, 120, 53);
    let up = calculate_path(&dog, &animal, RelationType::Inheritance);
    assert_eq!(up, vec![(n(90), n(163)), (n(90), n(83))]);
    let down = calculate_path(&animal, &dog, RelationType::Realization);
    assert_eq!(down, vec![(n(90), n(83)), (n(90), n(163))]);
}

#[test]
fn a_hierarchy_between_shifted_entities_bends_half_way() {
    let child = boxed(210, 163, 120, 50);
    let parent = boxed(30, 30, 120, 50);
    let path = calculate_path(&child, &parent, RelationType::Inheritance);
    assert_eq!(
        path,
        vec![(n(270), n(163)), (n(270), half(243)), (n(90), half(243)), (n(90), n(80))]
    );
}

#[test]
fn another_relationship_runs_through_the_gap_or_round_the_entities() {
    let left = boxed(30, 30, 120, 50);
    let right = boxed(210, 30, 120, 50);
    let across = calculate_path(&left, &right, RelationType::Association);
    assert_eq!(across, vec![(n(150), n(55)), (n(180), n(55)), (n(180), n(55)), (n(210), n(55))]);
    let back = calculate_path(&right, &left, RelationType::Dependency);
    assert_eq!(back, vec![(n(210), n(55)), (n(180), n(55)), (n(180), n(55)), (n(150), n(55))]);
    let near = boxed(160, 30, 120, 50);
    let round = calculate_path(&left, &near, RelationType::Composition);
    assert_eq!(
        round,
        vec![
            (n(150), n(55)),
            (n(165), n(55)),
            (n(165), n(95)),
            (n(145), n(95)),
            (n(145), n(55)),
            (n(160), n(55)),
        ]
    );
    let above = boxed(30, 163, 120, 50);
    let over = calculate_path(&above, &left, RelationType::Association);
    assert_eq!(
        over,
        vec![
            (n(30), n(188)),
            (n(15), n(188)),
            (n(15), n(15)),
            (n(165), n(15)),
            (n(165), n(55)),
            (n(150), n(55)),
        ]
    );
}

#[test]
fn a_flat_hierarchy_is_drawn_vertically_only_where_height_outweighs_width() {
    let a = boxed(30, 30, 120, 50);
    let b = boxed(40, 45, 120, 50);
    let path = calculate_path(&a, &b, RelationType::Inheritance);
    assert_eq!(path, vec![(n(90), n(80)), (n(90), half(125)), (n(100), half(125)), (n(100), n(45))]);
    let c = boxed(60, 45, 120, 50);
    let sideways = calculate_path(&a, &c, RelationType::Inheritance);
    assert_eq!(sideways.len(), 6);
    assert_eq!(sideways[0], (n(150), n(55)));
}
