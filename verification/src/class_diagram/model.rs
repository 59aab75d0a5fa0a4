//! The model of a class diagram.

use crate::number::Num;
use vstd::prelude::*;

verus! {

/// The view of an optional string.
pub open spec fn opt_string(o: Option<String>) -> Option<Seq<char>> {
    match o {
        Some(s) => Some(s@),
        None => None,
    }
}

/// Who may see a member.
#[derive(Debug, Clone, Copy, PartialEq, Eq, Structural)]
pub enum Visibility {
    Public,
    Private,
    Protected,
    Package,
}

impl Visibility {
    /// The visibility that a symbol stands for.
    pub open spec fn of_char(c: char) -> Option<Visibility> {
        if c == '+' {
            Some(Visibility::Public)
        } else if c == '-' {
            Some(Visibility::Private)
        } else if c == '#' {
            Some(Visibility::Protected)
        } else if c == '~' {
            Some(Visibility::Package)
        } else {
            None
        }
    }

    /// The symbol of a visibility.
    pub open spec fn mark(self) -> Seq<char> {
        match self {
            Visibility::Public => "+"@,
            Visibility::Private => "-"@,
            Visibility::Protected => "#"@,
            Visibility::Package => "~"@,
        }
    }

    /// The visibility that a symbol stands for.
    pub fn from_char(c: char) -> (r: Option<Visibility>)
        ensures
            r == Visibility::of_char(c),
    {
        if c == '+' {
            Some(Visibility::Public)
        } else if c == '-' {
            Some(Visibility::Private)
        } else if c == '#' {
            Some(Visibility::Protected)
        } else if c == '~' {
            Some(Visibility::Package)
        } else {
            None
        }
    }

    /// The symbol of a visibility.
    pub fn symbol(&self) -> (r: &'static str)
        ensures
            r@ == self.mark(),
    {
        match self {
            Visibility::Public => "+",
            Visibility::Private => "-",
            Visibility::Protected => "#",
            Visibility::Package => "~",
        }
    }
}

/// A field of an entity.
#[derive(Debug, Clone)]
pub struct Field {
    pub visibility: Option<Visibility>,
    pub name: String,
    pub field_type: Option<String>,
    pub is_static: bool,
}

/// What a field holds.
pub struct FieldView {
    pub visibility: Option<Visibility>,
    pub name: Seq<char>,
    pub field_type: Option<Seq<char>>,
    pub is_static: bool,
}

impl View for Field {
    type V = FieldView;

    open spec fn view(&self) -> FieldView {
        FieldView {
            visibility: self.visibility,
            name: self.name@,
            field_type: opt_string(self.field_type),
            is_static: self.is_static,
        }
    }
}

/// A method of an entity.
#[derive(Debug, Clone)]
pub struct Method {
    pub visibility: Option<Visibility>,
    pub name: String,
    pub params: String,
    pub return_type: Option<String>,
    pub is_static: bool,
    pub is_abstract: bool,
}

/// What a method holds.
pub struct MethodView {
    pub visibility: Option<Visibility>,
    pub name: Seq<char>,
    pub params: Seq<char>,
    pub return_type: Option<Seq<char>>,
    pub is_static: bool,
    pub is_abstract: bool,
}

impl View for Method {
    type V = MethodView;

    open spec fn view(&self) -> MethodView {
        MethodView {
            visibility: self.visibility,
            name: self.name@,
            params: self.params@,
            return_type: opt_string(self.return_type),
            is_static: self.is_static,
            is_abstract: self.is_abstract,
        }
    }
}

/// The kinds of entity.
#[derive(Debug, Clone, Copy, PartialEq, Eq, Structural)]
pub enum ClassType {
    Class,
    Interface,
    Abstract,
    Enum,
}

/// An entity: a class, an interface, an abstract class or an enumeration.
#[derive(Debug, Clone)]
pub struct ClassDef {
    pub name: String,
    pub class_type: ClassType,
    pub fields: Vec<Field>,
    pub methods: Vec<Method>,
    pub stereotype: Option<String>,
    pub x: Num,
    pub y: Num,
    pub width: Num,
    pub height: Num,
}

/// What an entity holds.
pub struct ClassDefView {
    pub name: Seq<char>,
    pub class_type: ClassType,
    pub fields: Seq<FieldView>,
    pub methods: Seq<MethodView>,
    pub stereotype: Option<Seq<char>>,
    pub x: Num,
    pub y: Num,
    pub width: Num,
    pub height: Num,
}

/// What a list of fields holds.
pub open spec fn field_views(fs: Seq<Field>) -> Seq<FieldView> {
    fs.map_values(|f: Field| f@)
}

/// What a list of methods holds.
pub open spec fn method_views(ms: Seq<Method>) -> Seq<MethodView> {
    ms.map_values(|m: Method| m@)
}

impl View for ClassDef {
    type V = ClassDefView;

    open spec fn view(&self) -> ClassDefView {
        ClassDefView {
            name: self.name@,
            class_type: self.class_type,
            fields: field_views(self.fields@),
            methods: method_views(self.methods@),
            stereotype: opt_string(self.stereotype),
            x: self.x,
            y: self.y,
            width: self.width,
            height: self.height,
        }
    }
}

/// The kinds of relationship.
#[derive(Debug, Clone, Copy, PartialEq, Eq, Structural)]
pub enum RelationType {
    Inheritance,
    Realization,
    Composition,
    Aggregation,
    Association,
    Dependency,
    DirectedAssoc,
}

/// A relationship between two entities, each named.
#[derive(Debug, Clone)]
pub struct Relationship {
    pub from: String,
    pub to: String,
    pub rel_type: RelationType,
    pub label: Option<String>,
}

/// What a relationship holds.
pub struct RelationshipView {
    pub from: Seq<char>,
    pub to: Seq<char>,
    pub rel_type: RelationType,
    pub label: Option<Seq<char>>,
}

impl View for Relationship {
    type V = RelationshipView;

    open spec fn view(&self) -> RelationshipView {
        RelationshipView {
            from: self.from@,
            to: self.to@,
            rel_type: self.rel_type,
            label: opt_string(self.label),
        }
    }
}

/// What a list of entities holds.
pub open spec fn class_views(cs: Seq<ClassDef>) -> Seq<ClassDefView> {
    cs.map_values(|c: ClassDef| c@)
}

/// What a list of relationships holds.
pub open spec fn relationship_views(rs: Seq<Relationship>) -> Seq<RelationshipView> {
    rs.map_values(|r: Relationship| r@)
}

/// A class diagram: its entities in the order in which the source first
/// names them, and its relationships in the order of the source.
#[derive(Debug, Clone)]
pub struct ClassDiagram {
    pub classes: Vec<ClassDef>,
    pub relationships: Vec<Relationship>,
}

/// What a class diagram holds.
pub struct ClassDiagramView {
    pub classes: Seq<ClassDefView>,
    pub relationships: Seq<RelationshipView>,
}

impl View for ClassDiagram {
    type V = ClassDiagramView;

    open spec fn view(&self) -> ClassDiagramView {
        ClassDiagramView {
            classes: class_views(self.classes@),
            relationships: relationship_views(self.relationships@),
        }
    }
}

/// The first index at or after `i` of an entity with the given name.
pub open spec fn position_from(classes: Seq<ClassDefView>, name: Seq<char>, i: int) -> Option<int>
    decreases classes.len() - i,
{
    if i < 0 || i >= classes.len() {
        None
    } else if classes[i].name == name {
        Some(i)
    } else {
        position_from(classes, name, i + 1)
    }
}

/// The index of the first entity with the given name.
pub open spec fn position(classes: Seq<ClassDefView>, name: Seq<char>) -> Option<int> {
    position_from(classes, name, 0)
}

/// An entity has the given name.
pub open spec fn declared(classes: Seq<ClassDefView>, name: Seq<char>) -> bool {
    exists|i: int| 0 <= i < classes.len() && (#[trigger] classes[i]).name == name
}

/// No two entities have the same name.
pub open spec fn distinct(classes: Seq<ClassDefView>) -> bool {
    forall|i: int, j: int|
        0 <= i < j < classes.len() ==> (#[trigger] classes[i]).name != (#[trigger] classes[j]).name
}

/// `position_from` finds the first entity of that name at or after `i`.
pub proof fn lemma_position_from(classes: Seq<ClassDefView>, name: Seq<char>, i: int)
    requires
        0 <= i,
    ensures
        match position_from(classes, name, i) {
            Some(k) => i <= k < classes.len() && classes[k].name == name && forall|j: int|
                i <= j < k ==> (#[trigger] classes[j]).name != name,
            None => forall|j: int| i <= j < classes.len() ==> (#[trigger] classes[j]).name != name,
        },
    decreases classes.len() - i,
{
    if i < classes.len() && classes[i].name != name {
        lemma_position_from(classes, name, i + 1);
    }
}

/// An entity is declared exactly where `position` finds it.
pub proof fn lemma_position(classes: Seq<ClassDefView>, name: Seq<char>)
    ensures
        declared(classes, name) <==> position(classes, name) is Some,
        match position(classes, name) {
            Some(k) => 0 <= k < classes.len() && classes[k].name == name,
            None => true,
        },
{
    lemma_position_from(classes, name, 0);
}

/// The index of the first entity with the given name.
pub fn find_entity(classes: &Vec<ClassDef>, name: &String) -> (r: Option<usize>)
    ensures
        match r {
            Some(i) => position(class_views(classes@), name@) == Some(i as int) && i
                < classes@.len(),
            None => position(class_views(classes@), name@) is None,
        },
{
    let mut i: usize = 0;
    while i < classes.len()
        invariant
            i <= classes@.len(),
            position_from(class_views(classes@), name@, i as int) == position(
                class_views(classes@),
                name@,
            ),
        decreases classes@.len() - i,
    {
        if classes[i].name == *name {
            return Some(i);
        }
        i += 1;
    }
    None
}

impl ClassDiagramView {
    /// The diagram is well formed: no two entities share a name, and each end
    /// of each relationship names an entity.
    pub open spec fn wf(self) -> bool {
        &&& distinct(self.classes)
        &&& forall|k: int|
            0 <= k < self.relationships.len() ==> declared(
                self.classes,
                (#[trigger] self.relationships[k]).from,
            ) && declared(self.classes, self.relationships[k].to)
    }
}

} // verus!
