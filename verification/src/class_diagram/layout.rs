//! The layout of class diagrams: each entity gets its size from its texts,
//! its layer from the hierarchy of the relationships, and its place from its
//! layer.

use crate::class_diagram::layers::{layers_of, names_of};
use crate::class_diagram::model::{
    class_views, opt_string, ClassDef, ClassDefView, ClassDiagram, ClassDiagramView, FieldView,
    Method, MethodView, Visibility,
};
use crate::number::{num, Num};
use crate::style::{DiagramStyle, Measures};
use crate::svg::opt_text;
use vstd::prelude::*;

verus! {

// ---------------------------------------------------------------------------
// The texts of members
// ---------------------------------------------------------------------------

/// The symbol of a visibility, where there is one.
pub open spec fn mark_of(v: Option<Visibility>) -> Seq<char> {
    match v {
        Some(v) => v.mark(),
        None => Seq::empty(),
    }
}

/// A type as it follows a name: after a colon and a blank.
pub open spec fn typed(t: Option<Seq<char>>) -> Seq<char> {
    match t {
        Some(t) => ": "@ + t,
        None => Seq::empty(),
    }
}

/// The line of a field: `visibility name: type`.
pub open spec fn member_text(vis: Option<Visibility>, name: Seq<char>, typ: Option<Seq<char>>) -> Seq<
    char,
> {
    mark_of(vis) + name + typed(typ)
}

/// The line of a field.
pub open spec fn field_line(f: FieldView) -> Seq<char> {
    member_text(f.visibility, f.name, f.field_type)
}

/// The line of a method: `visibility name(params): returnType`.
pub open spec fn method_line(m: MethodView) -> Seq<char> {
    mark_of(m.visibility) + m.name + "("@ + m.params + ")"@ + typed(m.return_type)
}

/// An optional string as an optional slice.
pub fn as_opt_str(o: &Option<String>) -> (r: Option<&str>)
    ensures
        opt_text(r) == opt_string(*o),
{
    match o {
        Some(s) => Some(s.as_str()),
        None => None,
    }
}

/// The line of a field.
pub fn format_member(vis: Option<Visibility>, name: &str, typ: Option<&str>) -> (r: String)
    ensures
        r@ == member_text(vis, name@, opt_text(typ)),
{
    let mut out = match vis {
        Some(v) => v.symbol().to_owned(),
        None => String::new(),
    };
    out.append(name);
    let ghost before = out@;
    if let Some(t) = typ {
        out.append(": ");
        out.append(t);
    }
    assert(out@ =~= before + typed(opt_text(typ)));
    out
}

/// The line of a method.
pub fn format_method_text(m: &Method) -> (r: String)
    ensures
        r@ == method_line(m@),
{
    let mut out = match m.visibility {
        Some(v) => v.symbol().to_owned(),
        None => String::new(),
    };
    out.append(m.name.as_str());
    out.append("(");
    out.append(m.params.as_str());
    out.append(")");
    let ghost before = out@;
    if let Some(t) = &m.return_type {
        out.append(": ");
        out.append(t.as_str());
    }
    assert(out@ =~= before + typed(opt_string(m.return_type)));
    out
}

// ---------------------------------------------------------------------------
// Sizes
// ---------------------------------------------------------------------------

/// The height of the header of an entity, in thousandths.
pub const HEADER_HEIGHT: i64 = 25_000;

/// The height of the row of one member, in thousandths.
pub const ROW_HEIGHT: i64 = 18_000;

/// The least width of an entity, in thousandths.
pub const MIN_WIDTH: i64 = 120_000;

/// The width that a text of `len` characters takes: the advance of each
/// character, and the padding on both sides.
pub open spec fn text_width(len: int, style: Measures) -> Num {
    style.char_width.product(len).sum(style.padding.doubled())
}

/// The lengths of the texts of an entity: its name, its stereotype, the line
/// of each field and the line of each method.
pub open spec fn text_lengths(e: ClassDefView) -> Seq<int> {
    seq![e.name.len() as int] + match e.stereotype {
        Some(s) => seq![s.len() as int],
        None => Seq::empty(),
    } + e.fields.map_values(|f: FieldView| field_line(f).len() as int) + e.methods.map_values(
        |m: MethodView| method_line(m).len() as int,
    )
}

/// The largest of the widths that texts of the given lengths take, and at
/// least the least width.
pub open spec fn widest(lens: Seq<int>, style: Measures) -> Num
    decreases lens.len(),
{
    if lens.len() == 0 {
        num(MIN_WIDTH as int)
    } else {
        widest(lens.drop_last(), style).greater(text_width(lens.last(), style))
    }
}

/// The width of an entity: that of its widest text, and at least the least
/// width.
pub open spec fn entity_width(e: ClassDefView, style: Measures) -> Num {
    widest(text_lengths(e), style)
}

/// The height of a compartment of `rows` members: nothing where it is empty,
/// else a row for each member and the padding.
pub open spec fn compartment_height(rows: int, style: Measures) -> Num {
    if rows == 0 {
        num(0)
    } else {
        num(ROW_HEIGHT as int).product(rows).sum(style.padding)
    }
}

/// The height of an entity: the header and the two compartments, and at
/// least twice the header.
pub open spec fn entity_height(e: ClassDefView, style: Measures) -> Num {
    num(HEADER_HEIGHT as int).sum(compartment_height(e.fields.len() as int, style)).sum(
        compartment_height(e.methods.len() as int, style),
    ).greater(num(HEADER_HEIGHT as int).doubled())
}

/// An entity with its size.
pub open spec fn sized(e: ClassDefView, style: Measures) -> ClassDefView {
    ClassDefView { width: entity_width(e, style), height: entity_height(e, style), ..e }
}

fn width_of(text: &str, style: &DiagramStyle) -> (r: Num)
    ensures
        r == text_width(text@.len() as int, style.measures()),
{
    style.char_width.times(text.unicode_len()).plus(style.padding.twice())
}

fn measure_width(class: &ClassDef, style: &DiagramStyle) -> (r: Num)
    ensures
        r == entity_width(class@, style.measures()),
{
    let ghost mut seen: Seq<int> = seq![class@.name.len() as int];
    let mut w = Num::from_milli(MIN_WIDTH).max(width_of(class.name.as_str(), style));
    proof {
        assert(seen.drop_last() =~= Seq::<int>::empty());
        assert(widest(Seq::<int>::empty(), style.measures()) == num(MIN_WIDTH as int));
        assert(w == widest(seen, style.measures()));
    }
    if let Some(s) = &class.stereotype {
        w = w.max(width_of(s.as_str(), style));
        proof {
            let grown = seen.push(s@.len() as int);
            assert(grown.drop_last() =~= seen);
            seen = grown;
        }
    }
    let ghost head = seen;
    let mut i: usize = 0;
    while i < class.fields.len()
        invariant
            i <= class.fields@.len(),
            w == widest(seen, style.measures()),
            seen == head + class@.fields.take(i as int).map_values(
                |f: FieldView| field_line(f).len() as int,
            ),
        decreases class.fields@.len() - i,
    {
        let f = &class.fields[i];
        let text = format_member(f.visibility, f.name.as_str(), as_opt_str(&f.field_type));
        w = w.max(width_of(text.as_str(), style));
        proof {
            let grown = seen.push(text@.len() as int);
            assert(grown.drop_last() =~= seen);
            assert(class@.fields[i as int] == f@);
            assert(grown =~= head + class@.fields.take(i + 1).map_values(
                |f: FieldView| field_line(f).len() as int,
            ));
            seen = grown;
        }
        i += 1;
    }
    assert(class@.fields.take(class@.fields.len() as int) =~= class@.fields);
    let ghost mid = seen;
    let mut j: usize = 0;
    while j < class.methods.len()
        invariant
            j <= class.methods@.len(),
            w == widest(seen, style.measures()),
            seen == mid + class@.methods.take(j as int).map_values(
                |m: MethodView| method_line(m).len() as int,
            ),
        decreases class.methods@.len() - j,
    {
        let text = format_method_text(&class.methods[j]);
        w = w.max(width_of(text.as_str(), style));
        proof {
            let grown = seen.push(text@.len() as int);
            assert(grown.drop_last() =~= seen);
            assert(class@.methods[j as int] == class.methods@[j as int]@);
            assert(grown =~= mid + class@.methods.take(j + 1).map_values(
                |m: MethodView| method_line(m).len() as int,
            ));
            seen = grown;
        }
        j += 1;
    }
    assert(class@.methods.take(class@.methods.len() as int) =~= class@.methods);
    assert(seen =~= text_lengths(class@));
    w
}

fn measure_compartment(rows: usize, style: &DiagramStyle) -> (r: Num)
    ensures
        r == compartment_height(rows as int, style.measures()),
{
    if rows == 0 {
        Num::zero()
    } else {
        Num::from_milli(ROW_HEIGHT).times(rows).plus(style.padding)
    }
}

fn measure_height(class: &ClassDef, style: &DiagramStyle) -> (r: Num)
    ensures
        r == entity_height(class@, style.measures()),
{
    let header = Num::from_milli(HEADER_HEIGHT);
    header.plus(measure_compartment(class.fields.len(), style)).plus(
        measure_compartment(class.methods.len(), style),
    ).max(header.twice())
}

impl ClassDiagram {
    /// Gives each entity its size.
    pub fn calculate_dimensions(&mut self, style: &DiagramStyle)
        ensures
            final(self)@.relationships == old(self)@.relationships,
            final(self)@.classes == old(self)@.classes.map_values(
                |e: ClassDefView| sized(e, style.measures()),
            ),
    {
        let n: usize = self.classes.len();
        let mut i: usize = 0;
        while i < n
            invariant
                i <= n,
                n == self.classes@.len(),
                n == old(self).classes@.len(),
                self.relationships == old(self).relationships,
                forall|j: int| 0 <= j < i ==> (#[trigger] self.classes@[j])@ == sized(
                    old(self).classes@[j]@,
                    style.measures(),
                ),
                forall|j: int| i <= j < n ==> (#[trigger] self.classes@[j]) == old(self).classes@[j],
            decreases n - i,
        {
            let w = measure_width(&self.classes[i], style);
            let h = measure_height(&self.classes[i], style);
            self.classes[i].width = w;
            self.classes[i].height = h;
            i += 1;
        }
        assert(class_views(self.classes@) =~= class_views(old(self).classes@).map_values(
            |e: ClassDefView| sized(e, style.measures()),
        ));
    }
}

// ---------------------------------------------------------------------------
// Places
// ---------------------------------------------------------------------------

/// The widths of the entities, in their order.
pub open spec fn widths_of(d: ClassDiagramView) -> Seq<Num> {
    d.classes.map_values(|e: ClassDefView| e.width)
}

/// The heights of the entities, in their order.
pub open spec fn heights_of(d: ClassDiagramView) -> Seq<Num> {
    d.classes.map_values(|e: ClassDefView| e.height)
}

/// Where the next entity of layer `l` stands after the first `i` entities
/// were placed: the margin, and for each earlier entity of the layer its
/// width and the spacing.
pub open spec fn x_cursor(ws: Seq<Num>, ls: Seq<nat>, l: nat, i: int, style: Measures) -> Num
    decreases i,
{
    if i <= 0 {
        style.margin
    } else {
        let before = x_cursor(ws, ls, l, i - 1, style);
        if ls[i - 1] == l {
            before.sum(ws[i - 1].sum(style.spacing_x))
        } else {
            before
        }
    }
}

/// The height of the tallest of the first `i` entities that stands in layer
/// `l`; zero where none does.
pub open spec fn tallest(hs: Seq<Num>, ls: Seq<nat>, l: nat, i: int) -> Num
    decreases i,
{
    if i <= 0 {
        num(0)
    } else {
        let before = tallest(hs, ls, l, i - 1);
        if ls[i - 1] == l {
            before.greater(hs[i - 1])
        } else {
            before
        }
    }
}

/// Where layer `l` begins: the margin, and for each layer above it the height
/// of its tallest entity and the spacing.
pub open spec fn layer_y(hs: Seq<Num>, ls: Seq<nat>, l: nat, style: Measures) -> Num
    decreases l,
{
    if l == 0 {
        style.margin
    } else {
        layer_y(hs, ls, (l - 1) as nat, style).sum(
            tallest(hs, ls, (l - 1) as nat, hs.len() as int).sum(style.spacing_y),
        )
    }
}

/// Entity `i` in its place: in the row of its layer, to the right of the
/// earlier entities of that layer.
pub open spec fn arranged_entity(d: ClassDiagramView, style: Measures, i: int) -> ClassDefView {
    ClassDefView {
        x: x_cursor(widths_of(d), layers_of(d), layers_of(d)[i], i, style),
        y: layer_y(heights_of(d), layers_of(d), layers_of(d)[i], style),
        ..d.classes[i]
    }
}

/// The diagram with each entity in its place.
pub open spec fn arranged(d: ClassDiagramView, style: Measures) -> ClassDiagramView {
    ClassDiagramView {
        classes: Seq::new(d.classes.len(), |i: int| arranged_entity(d, style, i)),
        relationships: d.relationships,
    }
}

/// The diagram with each entity in its size.
pub open spec fn sized_all(d: ClassDiagramView, style: Measures) -> ClassDiagramView {
    ClassDiagramView {
        classes: d.classes.map_values(|e: ClassDefView| sized(e, style)),
        relationships: d.relationships,
    }
}

/// The diagram laid out: each entity in its size and in its place.
pub open spec fn laid_out(d: ClassDiagramView, style: Measures) -> ClassDiagramView {
    arranged(sized_all(d, style), style)
}

/// The right edge of the entity that reaches furthest to the right; zero
/// where there is no entity.
pub open spec fn max_right(es: Seq<ClassDefView>) -> Num
    decreases es.len(),
{
    if es.len() == 0 {
        num(0)
    } else {
        max_right(es.drop_last()).greater(es.last().x.sum(es.last().width))
    }
}

/// The lower edge of the entity that reaches furthest down; zero where there
/// is no entity.
pub open spec fn max_bottom(es: Seq<ClassDefView>) -> Num
    decreases es.len(),
{
    if es.len() == 0 {
        num(0)
    } else {
        max_bottom(es.drop_last()).greater(es.last().y.sum(es.last().height))
    }
}

// ---------------------------------------------------------------------------
// What holds of every layout
// ---------------------------------------------------------------------------

/// Two entities are the same but for their size and place.
pub open spec fn same_content(a: ClassDefView, b: ClassDefView) -> bool {
    &&& a.name == b.name
    &&& a.class_type == b.class_type
    &&& a.fields == b.fields
    &&& a.methods == b.methods
    &&& a.stereotype == b.stereotype
}

/// Two diagrams are the same but for the sizes and places of their entities.
pub open spec fn same_contents(a: ClassDiagramView, b: ClassDiagramView) -> bool {
    &&& a.relationships == b.relationships
    &&& a.classes.len() == b.classes.len()
    &&& forall|i: int| 0 <= i < a.classes.len() ==> same_content(#[trigger] a.classes[i], b.classes[i])
}

/// The layout adds no entity and takes none away: it gives each entity a
/// size and a place and leaves the rest of it, and the relationships, as
/// they were.
pub proof fn layout_keeps_contents(d: ClassDiagramView, style: Measures)
    ensures
        same_contents(laid_out(d, style), d),
{
}

/// The layout reads nothing but the contents of the diagram: the sizes and
/// places that the entities had before do not matter.
pub proof fn layout_reads_contents_only(a: ClassDiagramView, b: ClassDiagramView, style: Measures)
    requires
        same_contents(a, b),
    ensures
        laid_out(a, style) == laid_out(b, style),
{
    let sa = sized_all(a, style);
    let sb = sized_all(b, style);
    assert forall|i: int| 0 <= i < a.classes.len() implies entity_width(a.classes[i], style)
        == entity_width(b.classes[i], style) && entity_height(a.classes[i], style)
        == entity_height(b.classes[i], style) by {
        assert(same_content(a.classes[i], b.classes[i]));
        assert(text_lengths(a.classes[i]) =~= text_lengths(b.classes[i]));
    }
    assert(names_of(sa) =~= names_of(sb)) by {
        assert forall|i: int| 0 <= i < a.classes.len() implies names_of(sa)[i] == names_of(sb)[i] by {
            assert(same_content(a.classes[i], b.classes[i]));
        }
    }
    assert(layers_of(sa) =~= layers_of(sb));
    assert(widths_of(sa) =~= widths_of(sb));
    assert(heights_of(sa) =~= heights_of(sb));
    assert forall|i: int| 0 <= i < a.classes.len() implies arranged_entity(sa, style, i)
        == arranged_entity(sb, style, i) by {
        assert(same_content(a.classes[i], b.classes[i]));
    }
    assert(laid_out(a, style).classes =~= laid_out(b, style).classes);
}

/// Laying a diagram out twice gives what laying it out once gives.
pub proof fn layout_is_idempotent(d: ClassDiagramView, style: Measures)
    ensures
        laid_out(laid_out(d, style), style) == laid_out(d, style),
{
    layout_keeps_contents(d, style);
    layout_reads_contents_only(laid_out(d, style), d, style);
}

fn filled(n: usize, v: Num) -> (r: Vec<Num>)
    ensures
        r@.len() == n,
        forall|i: int| 0 <= i < n ==> #[trigger] r@[i] == v,
{
    let mut r: Vec<Num> = Vec::new();
    let mut i: usize = 0;
    while i < n
        invariant
            i <= n,
            r@.len() == i,
            forall|j: int| 0 <= j < i ==> #[trigger] r@[j] == v,
        decreases n - i,
    {
        r.push(v);
        i += 1;
    }
    r
}

impl ClassDiagram {
    /// Lays the diagram out: each entity gets its size and its place.
    pub fn layout(&mut self, style: &DiagramStyle)
        ensures
            final(self)@ == laid_out(old(self)@, style.measures()),
    {
        self.calculate_dimensions(style);
        assert(self@ == sized_all(old(self)@, style.measures()));
        self.hierarchical_layout(style);
    }

    /// Gives each entity its place: its column in the row of its layer.
    pub fn hierarchical_layout(&mut self, style: &DiagramStyle)
        ensures
            final(self)@ == arranged(old(self)@, style.measures()),
    {
        let n: usize = self.classes.len();
        let ghost start = self@;
        let ghost ws = widths_of(start);
        let ghost hts = heights_of(start);
        let ghost ls = layers_of(start);
        let layers = self.assign_layers();
        let mut xs = filled(n, style.margin);
        let mut hs = filled(n, Num::zero());
        let mut i: usize = 0;
        while i < n
            invariant
                i <= n,
                n == self.classes@.len(),
                n == start.classes.len(),
                start == old(self)@,
                ws == widths_of(start),
                hts == heights_of(start),
                ls == layers_of(start),
                layers@.len() == n,
                xs@.len() == n,
                hs@.len() == n,
                self@.relationships == start.relationships,
                forall|j: int| 0 <= j < n ==> #[trigger] layers@[j] == ls[j] && layers@[j] < n,
                forall|l: int|
                    0 <= l < n ==> #[trigger] xs@[l] == x_cursor(ws, ls, l as nat, i as int, style.measures()),
                forall|l: int| 0 <= l < n ==> #[trigger] hs@[l] == tallest(hts, ls, l as nat, i as int),
                forall|j: int|
                    0 <= j < i ==> (#[trigger] self.classes@[j])@ == (ClassDefView {
                        x: x_cursor(ws, ls, ls[j], j, style.measures()),
                        ..start.classes[j]
                    }),
                forall|j: int| i <= j < n ==> (#[trigger] self.classes@[j])@ == start.classes[j],
            decreases n - i,
        {
            let l: usize = layers[i];
            let w = self.classes[i].width;
            let h = self.classes[i].height;
            let x = xs[l];
            self.classes[i].x = x;
            xs[l] = x.plus(w.plus(style.spacing_x));
            let taller = hs[l].max(h);
            hs[l] = taller;
            i += 1;
        }
        let mut ys: Vec<Num> = Vec::new();
        let mut l: usize = 0;
        while l < n
            invariant
                l <= n,
                n == hs@.len(),
                n == hts.len(),
                ys@.len() == l,
                forall|k: int| 0 <= k < n ==> #[trigger] hs@[k] == tallest(hts, ls, k as nat, n as int),
                forall|k: int| 0 <= k < l ==> #[trigger] ys@[k] == layer_y(hts, ls, k as nat, style.measures()),
            decreases n - l,
        {
            if l == 0 {
                ys.push(style.margin);
            } else {
                let y = ys[l - 1].plus(hs[l - 1].plus(style.spacing_y));
                ys.push(y);
            }
            l += 1;
        }
        let mut j: usize = 0;
        while j < n
            invariant
                j <= n,
                n == self.classes@.len(),
                n == start.classes.len(),
                layers@.len() == n,
                ys@.len() == n,
                self@.relationships == start.relationships,
                forall|k: int| 0 <= k < n ==> #[trigger] layers@[k] == ls[k] && layers@[k] < n,
                forall|k: int| 0 <= k < n ==> #[trigger] ys@[k] == layer_y(hts, ls, k as nat, style.measures()),
                forall|k: int|
                    0 <= k < j ==> (#[trigger] self.classes@[k])@ == (ClassDefView {
                        x: x_cursor(ws, ls, ls[k], k, style.measures()),
                        y: layer_y(hts, ls, ls[k], style.measures()),
                        ..start.classes[k]
                    }),
                forall|k: int|
                    j <= k < n ==> (#[trigger] self.classes@[k])@ == (ClassDefView {
                        x: x_cursor(ws, ls, ls[k], k, style.measures()),
                        ..start.classes[k]
                    }),
            decreases n - j,
        {
            let y = ys[layers[j]];
            self.classes[j].y = y;
            j += 1;
        }
        assert(self@.classes =~= arranged(start, style.measures()).classes);
    }

    /// The size of the drawing: the right edge and the lower edge of the
    /// entities that reach furthest, each with the margin.
    pub fn bounds(&self, style: &DiagramStyle) -> (r: (Num, Num))
        ensures
            r.0 == max_right(self@.classes).sum(style.margin),
            r.1 == max_bottom(self@.classes).sum(style.margin),
    {
        let mut right = Num::zero();
        let mut bottom = Num::zero();
        let mut i: usize = 0;
        assert(self@.classes.take(0) =~= Seq::<ClassDefView>::empty());
        while i < self.classes.len()
            invariant
                i <= self.classes@.len(),
                right == max_right(self@.classes.take(i as int)),
                bottom == max_bottom(self@.classes.take(i as int)),
            decreases self.classes@.len() - i,
        {
            let c = &self.classes[i];
            right = right.max(c.x.plus(c.width));
            bottom = bottom.max(c.y.plus(c.height));
            proof {
                assert(self@.classes.take(i + 1).drop_last() =~= self@.classes.take(i as int));
                assert(self@.classes.take(i + 1).last() == c@);
            }
            i += 1;
        }
        assert(self@.classes.take(self@.classes.len() as int) =~= self@.classes);
        (right.plus(style.margin), bottom.plus(style.margin))
    }
}

} // verus!
