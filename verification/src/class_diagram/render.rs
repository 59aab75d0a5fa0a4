//! The drawing of class diagrams: the style sheet and the definitions
//! first, then the relationships, then the entities above them.

use crate::class_diagram::layout::{
    field_line, format_member, format_method_text, laid_out, as_opt_str, max_bottom, max_right,
    method_line, HEADER_HEIGHT, ROW_HEIGHT,
};
use crate::class_diagram::model::{
    find_entity, position, ClassDef, ClassDefView, ClassDiagram, ClassType, FieldView, MethodView,
    RelationType, Relationship, RelationshipView,
};
use crate::class_diagram::parser::{parsed, Parser};
use crate::class_diagram::route::{calculate_path, route};
use crate::css::{custom_css, extract_custom_css, value_or, Table};
use crate::number::{num, Num};
use crate::style::{DiagramStyle, Measures};
use crate::svg::{
    filtered_rect_markup, line_markup, num_attr, opening, opt_text, optional_attr, points_text,
    put_num_attr, put_optional_attr, put_points_attr, put_text_attr, resolved, shadowed,
    text_attr, text_markup, SvgBuilder,
};
use vstd::prelude::*;

verus! {

/// Concatenation may be grouped either way.
pub proof fn lemma_join(a: Seq<char>, b: Seq<char>, c: Seq<char>)
    ensures
        (a + b) + c == a + (b + c),
{
    assert((a + b) + c =~= a + (b + c));
}

/// Nothing added changes nothing.
pub proof fn lemma_join_empty(a: Seq<char>)
    ensures
        a + Seq::<char>::empty() == a,
        Seq::<char>::empty() + a == a,
{
    assert(a + Seq::<char>::empty() =~= a);
    assert(Seq::<char>::empty() + a =~= a);
}

// ---------------------------------------------------------------------------
// Definitions
// ---------------------------------------------------------------------------

/// The markers of the ends of relationships.
pub const MARKERS: &'static str = "<marker id=\"cls-triangle\" viewBox=\"0 0 10 10\" refX=\"10\" refY=\"5\" markerWidth=\"10\" markerHeight=\"10\" orient=\"auto-start-reverse\">
<path d=\"M 0 0 L 10 5 L 0 10 z\" class=\"marker-triangle\"/>
</marker>
<marker id=\"cls-arrow\" viewBox=\"0 0 10 10\" refX=\"10\" refY=\"5\" markerWidth=\"8\" markerHeight=\"8\" orient=\"auto-start-reverse\">
<path d=\"M 0 0 L 10 5 L 0 10 z\" class=\"marker-arrow\"/>
</marker>
<marker id=\"cls-diamond-filled\" viewBox=\"0 0 12 12\" refX=\"12\" refY=\"6\" markerWidth=\"12\" markerHeight=\"12\" orient=\"auto-start-reverse\">
<path d=\"M 0 6 L 6 0 L 12 6 L 6 12 z\" class=\"marker-diamond-filled\"/>
</marker>
<marker id=\"cls-diamond-empty\" viewBox=\"0 0 12 12\" refX=\"12\" refY=\"6\" markerWidth=\"12\" markerHeight=\"12\" orient=\"auto-start-reverse\">
<path d=\"M 0 6 L 6 0 L 12 6 L 6 12 z\" class=\"marker-diamond-empty\"/>
</marker>
";

/// The style category of the box of an entity.
pub open spec fn box_class(t: ClassType) -> Seq<char> {
    match t {
        ClassType::Interface => "interface"@,
        ClassType::Abstract => "abstract-class"@,
        ClassType::Enum => "enum"@,
        ClassType::Class => "class"@,
    }
}

/// The name of the shadow filter of a kind of entity.
pub open spec fn filter_id(t: ClassType) -> Seq<char> {
    match t {
        ClassType::Interface => "interface-shadow"@,
        ClassType::Abstract => "abstract-class-shadow"@,
        ClassType::Enum => "enum-shadow"@,
        ClassType::Class => "class-shadow"@,
    }
}

/// The opacity of a shadow where the sheets give none, in thousandths.
pub const SHADOW_OPACITY: i64 = 300;

/// The shadow filter of a kind of entity; nothing where the sheets give that
/// kind no shadow.
pub open spec fn shadow_filter(table: Table, t: ClassType) -> Seq<char> {
    if shadowed(table, box_class(t)) {
        "<filter"@ + text_attr("id"@, filter_id(t))
            + " x=\"-50%\" y=\"-50%\" width=\"200%\" height=\"200%\">\n<feDropShadow"@ + num_attr(
            "dx"@,
            value_or(table, box_class(t), "shadow-dx"@, 0),
        ) + num_attr("dy"@, value_or(table, box_class(t), "shadow-dy"@, 0)) + num_attr(
            "stdDeviation"@,
            value_or(table, box_class(t), "shadow-blur"@, 0),
        ) + num_attr(
            "flood-opacity"@,
            value_or(table, box_class(t), "shadow-opacity"@, SHADOW_OPACITY as int),
        ) + "/>\n</filter>\n"@
    } else {
        Seq::empty()
    }
}

/// The definitions: the shadow filters, then the markers.
#[verifier::opaque]
pub open spec fn defs_markup(table: Table) -> Seq<char> {
    "<defs>\n"@ + shadow_filter(table, ClassType::Class) + shadow_filter(
        table,
        ClassType::Interface,
    ) + shadow_filter(table, ClassType::Abstract) + shadow_filter(table, ClassType::Enum)
        + MARKERS@ + "</defs>"@
}

fn box_names(t: ClassType) -> (r: (&'static str, &'static str))
    ensures
        r.0@ == box_class(t),
        r.1@ == filter_id(t),
{
    match t {
        ClassType::Interface => ("interface", "interface-shadow"),
        ClassType::Abstract => ("abstract-class", "abstract-class-shadow"),
        ClassType::Enum => ("enum", "enum-shadow"),
        ClassType::Class => ("class", "class-shadow"),
    }
}

fn put_shadow_filter(defs: &mut String, svg: &SvgBuilder, t: ClassType)
    ensures
        final(defs)@ == old(defs)@ + shadow_filter(svg.props(), t),
{
    let (class, id) = box_names(t);
    if svg.has_shadow(class) {
        let dx = svg.css_prop_or(class, "shadow-dx", Num::zero());
        let dy = svg.css_prop_or(class, "shadow-dy", Num::zero());
        let blur = svg.css_prop_or(class, "shadow-blur", Num::zero());
        let opacity = svg.css_prop_or(class, "shadow-opacity", Num::from_milli(SHADOW_OPACITY));
        let mut piece = "<filter".to_owned();
        put_text_attr(&mut piece, "id", id);
        piece.append(" x=\"-50%\" y=\"-50%\" width=\"200%\" height=\"200%\">\n<feDropShadow");
        put_num_attr(&mut piece, "dx", dx);
        put_num_attr(&mut piece, "dy", dy);
        put_num_attr(&mut piece, "stdDeviation", blur);
        put_num_attr(&mut piece, "flood-opacity", opacity);
        piece.append("/>\n</filter>\n");
        defs.append(piece.as_str());
    } else {
        proof {
            lemma_join_empty(defs@);
        }
    }
}

fn build_defs(svg: &SvgBuilder) -> (defs: String)
    ensures
        defs@ == defs_markup(svg.props()),
{
    reveal(defs_markup);
    let mut defs = "<defs>\n".to_owned();
    put_shadow_filter(&mut defs, svg, ClassType::Class);
    put_shadow_filter(&mut defs, svg, ClassType::Interface);
    put_shadow_filter(&mut defs, svg, ClassType::Abstract);
    put_shadow_filter(&mut defs, svg, ClassType::Enum);
    defs.append(MARKERS);
    defs.append("</defs>");
    defs
}

// ---------------------------------------------------------------------------
// Relationships
// ---------------------------------------------------------------------------

/// The line of this kind of relationship is dashed.
pub open spec fn dashed(kind: RelationType) -> bool {
    kind == RelationType::Realization || kind == RelationType::Dependency
}

/// The style category of the line of a relationship.
pub open spec fn stroke_class(kind: RelationType) -> Seq<char> {
    if dashed(kind) {
        "relationship relationship-dashed"@
    } else {
        "relationship"@
    }
}

/// The marker at the start of the line: a diamond at the whole.
pub open spec fn start_marker(kind: RelationType) -> Seq<char> {
    match kind {
        RelationType::Composition => "url(#cls-diamond-filled)"@,
        RelationType::Aggregation => "url(#cls-diamond-empty)"@,
        _ => ""@,
    }
}

/// The marker at the end of the line: a triangle at the parent, an arrow at
/// the target.
pub open spec fn end_marker(kind: RelationType) -> Seq<char> {
    match kind {
        RelationType::Inheritance => "url(#cls-triangle)"@,
        RelationType::Realization => "url(#cls-triangle)"@,
        RelationType::Dependency => "url(#cls-arrow)"@,
        RelationType::DirectedAssoc => "url(#cls-arrow)"@,
        _ => ""@,
    }
}

/// How far the label stands above the middle of the path, in thousandths.
pub const LABEL_RISE: i64 = 5_000;

/// The label of a relationship, above the middle point of its path.
pub open spec fn label_markup(points: Seq<(Num, Num)>, label: Option<Seq<char>>) -> Seq<char> {
    match label {
        Some(l) => text_markup(
            points[points.len() as int / 2].0@,
            points[points.len() as int / 2].1.difference(num(LABEL_RISE as int))@,
            l,
            "relationship-label"@,
        ),
        None => Seq::empty(),
    }
}

/// The line of a relationship along a path.
pub open spec fn path_markup(points: Seq<(Num, Num)>, kind: RelationType) -> Seq<char> {
    "<polyline"@ + text_attr("points"@, points_text(points)) + text_attr(
        "class"@,
        stroke_class(kind),
    ) + optional_attr("marker-start"@, start_marker(kind)) + optional_attr(
        "marker-end"@,
        end_marker(kind),
    ) + "/>"@
}

/// The drawing of a relationship: its line and its label. Nothing where one
/// of its ends names no entity.
#[verifier::opaque]
pub open spec fn relationship_markup(classes: Seq<ClassDefView>, r: RelationshipView) -> Seq<char> {
    match (position(classes, r.from), position(classes, r.to)) {
        (Some(a), Some(b)) => path_markup(route(classes[a], classes[b], r.rel_type), r.rel_type)
            + label_markup(route(classes[a], classes[b], r.rel_type), r.label),
        _ => Seq::empty(),
    }
}

/// The drawing of a list of relationships, in their order.
pub open spec fn relationships_markup(classes: Seq<ClassDefView>, rels: Seq<RelationshipView>) -> Seq<
    char,
>
    decreases rels.len(),
{
    if rels.len() == 0 {
        Seq::empty()
    } else {
        relationships_markup(classes, rels.drop_last()) + relationship_markup(classes, rels.last())
    }
}

fn line_look(kind: RelationType) -> (r: (&'static str, &'static str, &'static str))
    ensures
        r.0@ == stroke_class(kind),
        r.1@ == start_marker(kind),
        r.2@ == end_marker(kind),
{
    match kind {
        RelationType::Inheritance => ("relationship", "", "url(#cls-triangle)"),
        RelationType::Realization => ("relationship relationship-dashed", "", "url(#cls-triangle)"),
        RelationType::Composition => ("relationship", "url(#cls-diamond-filled)", ""),
        RelationType::Aggregation => ("relationship", "url(#cls-diamond-empty)", ""),
        RelationType::Association => ("relationship", "", ""),
        RelationType::Dependency => ("relationship relationship-dashed", "", "url(#cls-arrow)"),
        RelationType::DirectedAssoc => ("relationship", "", "url(#cls-arrow)"),
    }
}

/// Draws a relationship.
pub fn render_relationship(
    svg: &mut SvgBuilder,
    diagram: &ClassDiagram,
    rel: &Relationship,
    _style: &DiagramStyle,
)
    ensures
        final(svg).markup() == old(svg).markup() + relationship_markup(diagram@.classes, rel@),
        final(svg).props() == old(svg).props(),
{
    reveal(relationship_markup);
    let from = find_entity(&diagram.classes, &rel.from);
    let to = find_entity(&diagram.classes, &rel.to);
    match (from, to) {
        (Some(a), Some(b)) => {
            let points = calculate_path(&diagram.classes[a], &diagram.classes[b], rel.rel_type);
            let (class, start, end) = line_look(rel.rel_type);
            let mut piece = "<polyline".to_owned();
            put_points_attr(&mut piece, points.as_slice());
            put_text_attr(&mut piece, "class", class);
            put_optional_attr(&mut piece, "marker-start", start);
            put_optional_attr(&mut piece, "marker-end", end);
            piece.append("/>");
            svg.push(piece.as_str());
            let ghost drawn = svg.markup();
            if let Some(label) = &rel.label {
                let mid = points[points.len() / 2];
                svg.text_class(
                    mid.0,
                    mid.1.minus(Num::from_milli(LABEL_RISE)),
                    label.as_str(),
                    "relationship-label",
                );
            }
            proof {
                lemma_join_empty(drawn);
                lemma_join(
                    old(svg).markup(),
                    piece@,
                    label_markup(points@, rel@.label),
                );
            }
        },
        _ => {
            proof {
                lemma_join_empty(svg.markup());
            }
        },
    }
}

// ---------------------------------------------------------------------------
// Entities
// ---------------------------------------------------------------------------

/// The style category of the name of an entity.
pub open spec fn name_class(t: ClassType) -> Seq<char> {
    match t {
        ClassType::Interface => "interface-name"@,
        ClassType::Abstract => "abstract-class-name"@,
        _ => "class-name"@,
    }
}

/// The style category of the lines between the compartments.
pub open spec fn separator_class(t: ClassType) -> Seq<char> {
    match t {
        ClassType::Interface => "interface-separator"@,
        ClassType::Abstract => "abstract-class-separator"@,
        _ => "class-separator"@,
    }
}

/// The style categories of a field.
pub open spec fn field_class(t: ClassType, is_static: bool) -> Seq<char> {
    if t == ClassType::Abstract {
        if is_static {
            "abstract-class-field-name abstract-class-field-name-static"@
        } else {
            "abstract-class-field-name"@
        }
    } else {
        if is_static {
            "class-field-name class-field-name-static"@
        } else {
            "class-field-name"@
        }
    }
}

/// The style categories of a method. A static method is drawn as static,
/// whether or not it is abstract.
pub open spec fn method_class(t: ClassType, is_static: bool, is_abstract: bool) -> Seq<char> {
    match t {
        ClassType::Interface => if is_static {
            "interface-method-name interface-method-name-static"@
        } else {
            "interface-method-name"@
        },
        ClassType::Abstract => if is_static {
            "abstract-class-method-name abstract-class-method-name-static"@
        } else if is_abstract {
            "abstract-class-method-name abstract-class-method-name-abstract"@
        } else {
            "abstract-class-method-name"@
        },
        _ => if is_static {
            "class-method-name class-method-name-static"@
        } else if is_abstract {
            "class-method-name class-method-name-abstract"@
        } else {
            "class-method-name"@
        },
    }
}

/// How far below the top of an entity its stereotype is written.
pub const STEREOTYPE_DROP: i64 = 12_000;

/// How far a stereotype moves the name down.
pub const STEREOTYPE_SHIFT: i64 = 10_000;

/// How far below the top of the header the name is written.
pub const NAME_DROP: i64 = 16_500;

/// The gap between a separator and the rows next to it.
pub const ROW_GAP: i64 = 4_000;

/// The filter of the box of an entity, where the sheets give its kind a
/// shadow.
pub open spec fn box_filter(table: Table, t: ClassType) -> Option<Seq<char>> {
    if shadowed(table, box_class(t)) {
        Some(filter_id(t))
    } else {
        None
    }
}

/// The box of an entity, with the corners that the sheets give its kind.
pub open spec fn box_markup(e: ClassDefView, table: Table) -> Seq<char> {
    filtered_rect_markup(
        e.x@,
        e.y@,
        e.width@,
        e.height@,
        value_or(table, box_class(e.class_type), "rx"@, 0),
        value_or(table, box_class(e.class_type), "ry"@, 0),
        box_class(e.class_type),
        box_filter(table, e.class_type),
    )
}

/// The middle of an entity, where its name and stereotype are centred.
pub open spec fn middle(e: ClassDefView) -> Num {
    e.x.sum(e.width.halved())
}

/// The stereotype of an entity, in angle quotes.
pub open spec fn stereotype_markup(e: ClassDefView) -> Seq<char> {
    match e.stereotype {
        Some(s) => text_markup(
            middle(e)@,
            e.y.sum(num(STEREOTYPE_DROP as int))@,
            "<<"@ + s + ">>"@,
            "class-stereotype"@,
        ),
        None => Seq::empty(),
    }
}

/// Where the header text of an entity begins: at its top, or lower where a
/// stereotype stands above the name.
pub open spec fn name_top(e: ClassDefView) -> Num {
    if e.stereotype is Some {
        e.y.sum(num(STEREOTYPE_SHIFT as int))
    } else {
        e.y
    }
}

/// The height at which the header of an entity ends.
pub open spec fn header_end(e: ClassDefView) -> Num {
    e.y.sum(num(HEADER_HEIGHT as int))
}

/// A line across an entity at the height `y`.
pub open spec fn separator_markup(e: ClassDefView, y: Num) -> Seq<char> {
    line_markup(e.x@, y@, e.x.sum(e.width)@, y@, separator_class(e.class_type))
}

/// The header of an entity: its box, its stereotype, its name and the line
/// below them.
pub open spec fn header_markup(e: ClassDefView, table: Table) -> Seq<char> {
    box_markup(e, table) + stereotype_markup(e) + text_markup(
        middle(e)@,
        name_top(e).sum(num(NAME_DROP as int))@,
        e.name,
        name_class(e.class_type),
    ) + separator_markup(e, header_end(e))
}

/// The height of row `k` of a compartment whose rows begin below `y0`.
pub open spec fn row_y(y0: Num, k: int) -> Num
    decreases k,
{
    if k <= 0 {
        y0
    } else {
        row_y(y0, k - 1).sum(num(ROW_HEIGHT as int))
    }
}

/// The rows of the fields of an entity.
pub open spec fn field_rows(fs: Seq<FieldView>, t: ClassType, x: Num, y0: Num) -> Seq<char>
    decreases fs.len(),
{
    if fs.len() == 0 {
        Seq::empty()
    } else {
        field_rows(fs.drop_last(), t, x, y0) + text_markup(
            x@,
            row_y(y0, fs.len() as int)@,
            field_line(fs.last()),
            field_class(t, fs.last().is_static),
        )
    }
}

/// The rows of the methods of an entity.
pub open spec fn method_rows(ms: Seq<MethodView>, t: ClassType, x: Num, y0: Num) -> Seq<char>
    decreases ms.len(),
{
    if ms.len() == 0 {
        Seq::empty()
    } else {
        method_rows(ms.drop_last(), t, x, y0) + text_markup(
            x@,
            row_y(y0, ms.len() as int)@,
            method_line(ms.last()),
            method_class(t, ms.last().is_static, ms.last().is_abstract),
        )
    }
}

/// The height at which the compartment of the fields ends: that of the
/// header where there is no field.
pub open spec fn fields_end(e: ClassDefView) -> Num {
    if e.fields.len() == 0 {
        header_end(e)
    } else {
        row_y(header_end(e).sum(num(ROW_GAP as int)), e.fields.len() as int).sum(
            num(ROW_GAP as int),
        )
    }
}

/// The compartment of the fields: its rows and the line below them; nothing
/// where there is no field.
pub open spec fn fields_markup(e: ClassDefView, style: Measures) -> Seq<char> {
    if e.fields.len() == 0 {
        Seq::empty()
    } else {
        field_rows(
            e.fields,
            e.class_type,
            e.x.sum(style.padding),
            header_end(e).sum(num(ROW_GAP as int)),
        ) + separator_markup(e, fields_end(e))
    }
}

/// The compartment of the methods: its rows; nothing where there is no
/// method.
pub open spec fn methods_markup(e: ClassDefView, style: Measures) -> Seq<char> {
    if e.methods.len() == 0 {
        Seq::empty()
    } else {
        method_rows(
            e.methods,
            e.class_type,
            e.x.sum(style.padding),
            fields_end(e).sum(num(ROW_GAP as int)),
        )
    }
}

/// The drawing of an entity: its header and its two compartments.
#[verifier::opaque]
pub open spec fn entity_markup(e: ClassDefView, table: Table, style: Measures) -> Seq<char> {
    header_markup(e, table) + fields_markup(e, style) + methods_markup(e, style)
}

/// The drawing of a list of entities, in their order.
pub open spec fn entities_markup(es: Seq<ClassDefView>, table: Table, style: Measures) -> Seq<
    char,
>
    decreases es.len(),
{
    if es.len() == 0 {
        Seq::empty()
    } else {
        entities_markup(es.drop_last(), table, style) + entity_markup(es.last(), table, style)
    }
}

fn name_look(t: ClassType) -> (r: (&'static str, &'static str))
    ensures
        r.0@ == name_class(t),
        r.1@ == separator_class(t),
{
    match t {
        ClassType::Interface => ("interface-name", "interface-separator"),
        ClassType::Abstract => ("abstract-class-name", "abstract-class-separator"),
        _ => ("class-name", "class-separator"),
    }
}

fn field_look(t: ClassType, is_static: bool) -> (r: &'static str)
    ensures
        r@ == field_class(t, is_static),
{
    match t {
        ClassType::Abstract => if is_static {
            "abstract-class-field-name abstract-class-field-name-static"
        } else {
            "abstract-class-field-name"
        },
        _ => if is_static {
            "class-field-name class-field-name-static"
        } else {
            "class-field-name"
        },
    }
}

fn method_look(t: ClassType, is_static: bool, is_abstract: bool) -> (r: &'static str)
    ensures
        r@ == method_class(t, is_static, is_abstract),
{
    match t {
        ClassType::Interface => if is_static {
            "interface-method-name interface-method-name-static"
        } else {
            "interface-method-name"
        },
        ClassType::Abstract => if is_static {
            "abstract-class-method-name abstract-class-method-name-static"
        } else if is_abstract {
            "abstract-class-method-name abstract-class-method-name-abstract"
        } else {
            "abstract-class-method-name"
        },
        _ => if is_static {
            "class-method-name class-method-name-static"
        } else if is_abstract {
            "class-method-name class-method-name-abstract"
        } else {
            "class-method-name"
        },
    }
}

fn render_header(svg: &mut SvgBuilder, class: &ClassDef)
    ensures
        final(svg).markup() == old(svg).markup() + header_markup(class@, old(svg).props()),
        final(svg).props() == old(svg).props(),
{
    let ghost e = class@;
    let ghost start = svg.markup();
    let (box_name, filter_name) = box_names(class.class_type);
    let (name_name, separator_name) = name_look(class.class_type);
    let rx = svg.css_prop_or(box_name, "rx", Num::zero());
    let ry = svg.css_prop_or(box_name, "ry", Num::zero());
    let filter = if svg.has_shadow(box_name) {
        Some(filter_name)
    } else {
        None
    };
    svg.rect_rounded_class_filtered(
        class.x,
        class.y,
        class.width,
        class.height,
        rx,
        ry,
        box_name,
        filter,
    );
    let ghost boxed = box_markup(e, svg.props());
    assert(svg.markup() == start + boxed);
    let center = class.x.plus(class.width.half());
    let mut y = class.y;
    if let Some(stereo) = &class.stereotype {
        let mut quoted = "<<".to_owned();
        quoted.append(stereo.as_str());
        quoted.append(">>");
        svg.text_class(
            center,
            class.y.plus(Num::from_milli(STEREOTYPE_DROP)),
            quoted.as_str(),
            "class-stereotype",
        );
        y = y.plus(Num::from_milli(STEREOTYPE_SHIFT));
    }
    let ghost labelled = boxed + stereotype_markup(e);
    proof {
        lemma_join_empty(start + boxed);
        lemma_join(start, boxed, stereotype_markup(e));
        assert(svg.markup() == start + labelled);
    }
    svg.text_class(center, y.plus(Num::from_milli(NAME_DROP)), class.name.as_str(), name_name);
    let ghost named = labelled + text_markup(
        middle(e)@,
        name_top(e).sum(num(NAME_DROP as int))@,
        e.name,
        name_class(e.class_type),
    );
    proof {
        lemma_join(
            start,
            labelled,
            text_markup(
                middle(e)@,
                name_top(e).sum(num(NAME_DROP as int))@,
                e.name,
                name_class(e.class_type),
            ),
        );
        assert(svg.markup() == start + named);
    }
    let line_y = class.y.plus(Num::from_milli(HEADER_HEIGHT));
    svg.line_class(class.x, line_y, class.x.plus(class.width), line_y, separator_name);
    proof {
        lemma_join(start, named, separator_markup(e, header_end(e)));
    }
}

fn render_fields(svg: &mut SvgBuilder, class: &ClassDef, style: &DiagramStyle)
    ensures
        final(svg).markup() == old(svg).markup() + fields_markup(class@, style.measures()),
        final(svg).props() == old(svg).props(),
{
    let ghost e = class@;
    let ghost start = svg.markup();
    let n: usize = class.fields.len();
    if n == 0 {
        proof {
            lemma_join_empty(start);
        }
        return ;
    }
    let (_, separator_name) = name_look(class.class_type);
    let x = class.x.plus(style.padding);
    let y0 = class.y.plus(Num::from_milli(HEADER_HEIGHT)).plus(Num::from_milli(ROW_GAP));
    let mut y = y0;
    let mut i: usize = 0;
    proof {
        lemma_join_empty(start);
        assert(e.fields.take(0) =~= Seq::<FieldView>::empty());
    }
    while i < n
        invariant
            i <= n,
            n == class.fields@.len(),
            e == class@,
            y == row_y(y0, i as int),
            svg.props() == old(svg).props(),
            svg.markup() == start + field_rows(e.fields.take(i as int), e.class_type, x, y0),
        decreases n - i,
    {
        let f = &class.fields[i];
        y = y.plus(Num::from_milli(ROW_HEIGHT));
        let text = format_member(f.visibility, f.name.as_str(), as_opt_str(&f.field_type));
        let ghost before = field_rows(e.fields.take(i as int), e.class_type, x, y0);
        svg.text_class(x, y, text.as_str(), field_look(class.class_type, f.is_static));
        proof {
            let grown = e.fields.take(i + 1);
            assert(grown.drop_last() =~= e.fields.take(i as int));
            assert(grown.last() == f@);
            lemma_join(
                start,
                before,
                text_markup(x@, y@, field_line(f@), field_class(e.class_type, f@.is_static)),
            );
        }
        i += 1;
    }
    assert(e.fields.take(n as int) =~= e.fields);
    let end = y.plus(Num::from_milli(ROW_GAP));
    svg.line_class(class.x, end, class.x.plus(class.width), end, separator_name);
    proof {
        lemma_join(
            start,
            field_rows(e.fields, e.class_type, x, y0),
            separator_markup(e, fields_end(e)),
        );
    }
}

fn fields_bottom(class: &ClassDef) -> (y: Num)
    ensures
        y == fields_end(class@),
{
    let n: usize = class.fields.len();
    let top = class.y.plus(Num::from_milli(HEADER_HEIGHT));
    if n == 0 {
        return top;
    }
    let y0 = top.plus(Num::from_milli(ROW_GAP));
    let mut y = y0;
    let mut i: usize = 0;
    while i < n
        invariant
            i <= n,
            y == row_y(y0, i as int),
        decreases n - i,
    {
        y = y.plus(Num::from_milli(ROW_HEIGHT));
        i += 1;
    }
    y.plus(Num::from_milli(ROW_GAP))
}

fn render_methods(svg: &mut SvgBuilder, class: &ClassDef, style: &DiagramStyle)
    ensures
        final(svg).markup() == old(svg).markup() + methods_markup(class@, style.measures()),
        final(svg).props() == old(svg).props(),
{
    let ghost e = class@;
    let ghost start = svg.markup();
    let n: usize = class.methods.len();
    if n == 0 {
        proof {
            lemma_join_empty(start);
        }
        return ;
    }
    let x = class.x.plus(style.padding);
    let y0 = fields_bottom(class).plus(Num::from_milli(ROW_GAP));
    let mut y = y0;
    let mut i: usize = 0;
    proof {
        lemma_join_empty(start);
        assert(e.methods.take(0) =~= Seq::<MethodView>::empty());
    }
    while i < n
        invariant
            i <= n,
            n == class.methods@.len(),
            e == class@,
            y == row_y(y0, i as int),
            svg.props() == old(svg).props(),
            svg.markup() == start + method_rows(e.methods.take(i as int), e.class_type, x, y0),
        decreases n - i,
    {
        let m = &class.methods[i];
        y = y.plus(Num::from_milli(ROW_HEIGHT));
        let text = format_method_text(m);
        let ghost before = method_rows(e.methods.take(i as int), e.class_type, x, y0);
        svg.text_class(
            x,
            y,
            text.as_str(),
            method_look(class.class_type, m.is_static, m.is_abstract),
        );
        proof {
            let grown = e.methods.take(i + 1);
            assert(grown.drop_last() =~= e.methods.take(i as int));
            assert(grown.last() == m@);
            lemma_join(
                start,
                before,
                text_markup(
                    x@,
                    y@,
                    method_line(m@),
                    method_class(e.class_type, m@.is_static, m@.is_abstract),
                ),
            );
        }
        i += 1;
    }
    assert(e.methods.take(n as int) =~= e.methods);
}

/// Draws an entity.
pub fn render_class(svg: &mut SvgBuilder, class: &ClassDef, style: &DiagramStyle)
    ensures
        final(svg).markup() == old(svg).markup() + entity_markup(
            class@,
            old(svg).props(),
            style.measures(),
        ),
        final(svg).props() == old(svg).props(),
{
    reveal(entity_markup);
    let ghost start = svg.markup();
    let ghost table = svg.props();
    render_header(svg, class);
    render_fields(svg, class, style);
    render_methods(svg, class, style);
    proof {
        lemma_join(start, header_markup(class@, table), fields_markup(class@, style.measures()));
        lemma_join(
            start,
            header_markup(class@, table) + fields_markup(class@, style.measures()),
            methods_markup(class@, style.measures()),
        );
    }
}

// ---------------------------------------------------------------------------
// The whole drawing
// ---------------------------------------------------------------------------

/// The drawing of a laid-out diagram inside the root element: the
/// definitions, then all relationships, then all entities, so that the lines
/// lie behind the boxes.
pub open spec fn body_markup(
    classes: Seq<ClassDefView>,
    rels: Seq<RelationshipView>,
    table: Table,
    style: Measures,
) -> Seq<char> {
    defs_markup(table) + relationships_markup(classes, rels) + entities_markup(
        classes,
        table,
        style,
    )
}

/// The drawing of the class diagram that a source text describes, with an
/// external style sheet where one is given.
pub open spec fn drawing(source: Seq<char>, style: Measures, file_css: Option<Seq<char>>) -> Seq<
    char,
> {
    let d = laid_out(parsed(source), style);
    opening(
        max_right(d.classes).sum(style.margin)@,
        max_bottom(d.classes).sum(style.margin)@,
        file_css,
        custom_css(source),
    ) + body_markup(d.classes, d.relationships, resolved(file_css, custom_css(source)), style)
        + "</svg>"@
}

/// Draws the class diagram that a source text describes.
pub fn render(source: &str, style: &DiagramStyle) -> (r: String)
    ensures
        r@ == drawing(source@, style.measures(), None),
{
    render_with_file_css(source, style, None)
}

/// Draws the class diagram that a source text describes, with an external
/// style sheet between the built-in one and the inline one.
pub fn render_with_file_css(source: &str, style: &DiagramStyle, file_css: Option<&str>) -> (r:
    String)
    ensures
        r@ == drawing(source@, style.measures(), opt_text(file_css)),
{
    let mut diagram = Parser::new().parse(source);
    diagram.layout(style);
    let (width, height) = diagram.bounds(style);
    let inline_css = extract_custom_css(source);
    let inline: Option<&str> = match &inline_css {
        Some(css) => Some(css.as_str()),
        None => None,
    };
    assert(opt_text(inline) == custom_css(source@));
    let mut svg = SvgBuilder::new(width, height, style, file_css, inline);
    let ghost table = svg.props();
    let ghost open = svg.markup();
    let ghost classes = diagram@.classes;
    let ghost rels = diagram@.relationships;
    let defs = build_defs(&svg);
    svg.push(defs.as_str());
    let ghost with_defs = open + defs_markup(table);
    let mut i: usize = 0;
    proof {
        lemma_join_empty(with_defs);
        assert(rels.take(0) =~= Seq::<RelationshipView>::empty());
    }
    while i < diagram.relationships.len()
        invariant
            i <= diagram.relationships@.len(),
            classes == diagram@.classes,
            rels == diagram@.relationships,
            svg.props() == table,
            svg.markup() == with_defs + relationships_markup(classes, rels.take(i as int)),
        decreases diagram.relationships@.len() - i,
    {
        let ghost before = relationships_markup(classes, rels.take(i as int));
        render_relationship(&mut svg, &diagram, &diagram.relationships[i], style);
        proof {
            let grown = rels.take(i + 1);
            assert(grown.drop_last() =~= rels.take(i as int));
            assert(grown.last() == diagram.relationships@[i as int]@);
            lemma_join(with_defs, before, relationship_markup(classes, grown.last()));
        }
        i += 1;
    }
    assert(rels.take(rels.len() as int) =~= rels);
    let ghost with_rels = with_defs + relationships_markup(classes, rels);
    let mut j: usize = 0;
    proof {
        lemma_join_empty(with_rels);
        assert(classes.take(0) =~= Seq::<ClassDefView>::empty());
    }
    while j < diagram.classes.len()
        invariant
            j <= diagram.classes@.len(),
            classes == diagram@.classes,
            svg.props() == table,
            svg.markup() == with_rels + entities_markup(classes.take(j as int), table, style.measures()),
        decreases diagram.classes@.len() - j,
    {
        let ghost before = entities_markup(classes.take(j as int), table, style.measures());
        render_class(&mut svg, &diagram.classes[j], style);
        proof {
            let grown = classes.take(j + 1);
            assert(grown.drop_last() =~= classes.take(j as int));
            assert(grown.last() == diagram.classes@[j as int]@);
            lemma_join(with_rels, before, entity_markup(grown.last(), table, style.measures()));
        }
        j += 1;
    }
    assert(classes.take(classes.len() as int) =~= classes);
    proof {
        lemma_join(open, defs_markup(table), relationships_markup(classes, rels));
        lemma_join(
            open,
            defs_markup(table) + relationships_markup(classes, rels),
            entities_markup(classes, table, style.measures()),
        );
    }
    svg.finish()
}

} // verus!
