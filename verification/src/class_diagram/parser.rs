//! The parser of class diagrams: a line-oriented scan with one piece of
//! state, the entity whose body is open. It never fails: a line that it does
//! not recognise is passed over.

use crate::class_diagram::model::{
    class_views, declared, distinct, lemma_position, opt_string, position, position_from,
    relationship_views, ClassDef, ClassDefView, ClassDiagram, ClassDiagramView, ClassType, Field,
    FieldView, Method, MethodView, RelationType, Relationship, RelationshipView, Visibility,
};
use crate::css::opt_view;
use crate::number::{num, Num};
use crate::text::{
    char_index, char_index_from, chars_of, contains, contains_char, equals, find, find_char,
    find_char_from, find_from, has_prefix, includes, index_from, index_of, is_space,
    lemma_first_occurrence, lemma_index_of, lemma_lines_step, lemma_occurrence_char,
    lemma_prefix_char, lemma_prefix_of_concat, lemma_trimmed_end_space, lemma_trimmed_same,
    lines_of, next_line, occurs_at, remove_all, starts_with, string_of, strip_prefix, trim,
    trimmed, trimmed_start, without,
};
use vstd::prelude::*;
use vstd::slice::slice_subrange;

verus! {

// ---------------------------------------------------------------------------
// The state of the parser
// ---------------------------------------------------------------------------

/// What the parser holds: the entities in the order in which they were first
/// named, the relationships in the order of the source, and the name of the
/// entity whose body is open.
pub struct ParserView {
    pub classes: Seq<ClassDefView>,
    pub relationships: Seq<RelationshipView>,
    pub current: Option<Seq<char>>,
}

/// An entity without members and without a place.
pub open spec fn blank(
    name: Seq<char>,
    class_type: ClassType,
    stereotype: Option<Seq<char>>,
) -> ClassDefView {
    ClassDefView {
        name,
        class_type,
        fields: Seq::empty(),
        methods: Seq::empty(),
        stereotype,
        x: num(0),
        y: num(0),
        width: num(0),
        height: num(0),
    }
}

/// The entities after `e` was declared: it replaces the entity of its name,
/// in that entity's place, or comes last where the name is new.
pub open spec fn with_declared(classes: Seq<ClassDefView>, e: ClassDefView) -> Seq<ClassDefView> {
    match position(classes, e.name) {
        Some(i) => classes.update(i, e),
        None => classes.push(e),
    }
}

/// The entities after `name` was referred to: where no entity has the name,
/// an empty class of that name comes last.
pub open spec fn with_ensured(classes: Seq<ClassDefView>, name: Seq<char>) -> Seq<ClassDefView> {
    if position(classes, name) is Some {
        classes
    } else {
        classes.push(blank(name, ClassType::Class, None))
    }
}

/// The entities after the field `f` was added to the entity `name`.
pub open spec fn with_field(classes: Seq<ClassDefView>, name: Seq<char>, f: FieldView) -> Seq<
    ClassDefView,
> {
    match position(classes, name) {
        Some(i) => classes.update(
            i,
            ClassDefView { fields: classes[i].fields.push(f), ..classes[i] },
        ),
        None => classes,
    }
}

/// The entities after the method `m` was added to the entity `name`.
pub open spec fn with_method(classes: Seq<ClassDefView>, name: Seq<char>, m: MethodView) -> Seq<
    ClassDefView,
> {
    match position(classes, name) {
        Some(i) => classes.update(
            i,
            ClassDefView { methods: classes[i].methods.push(m), ..classes[i] },
        ),
        None => classes,
    }
}

// ---------------------------------------------------------------------------
// Entity headers
// ---------------------------------------------------------------------------

/// The kind that a header line declares and what follows its keyword.
pub open spec fn header(line: Seq<char>) -> Option<(ClassType, Seq<char>)> {
    if has_prefix(line, "interface "@) {
        Some((ClassType::Interface, line.skip("interface "@.len() as int)))
    } else if has_prefix(line, "abstract class "@) {
        Some((ClassType::Abstract, line.skip("abstract class "@.len() as int)))
    } else if has_prefix(line, "abstract "@) {
        Some((ClassType::Abstract, line.skip("abstract "@.len() as int)))
    } else if has_prefix(line, "enum "@) {
        Some((ClassType::Enum, line.skip("enum "@.len() as int)))
    } else if has_prefix(line, "class "@) {
        Some((ClassType::Class, line.skip("class "@.len() as int)))
    } else {
        None
    }
}

/// The header opens a body: its text ends in an opening brace.
pub open spec fn opens_body(rest: Seq<char>) -> bool {
    trimmed(rest).len() > 0 && trimmed(rest).last() == '{'
}

/// The header's text without the brace: the name with its stereotype.
pub open spec fn name_part(rest: Seq<char>) -> Seq<char> {
    if opens_body(rest) {
        trimmed(trimmed(rest).drop_last())
    } else {
        trimmed(rest)
    }
}

/// Where the stereotype stands: the index of the first `<<` and the index of
/// the first `>>` after it.
pub open spec fn stereotype_span(part: Seq<char>) -> Option<(int, int)> {
    match index_of(part, "<<"@) {
        Some(a) => match index_from(part, ">>"@, a + 2) {
            Some(b) => if 0 <= a && a + 2 <= b <= part.len() {
                Some((a, b))
            } else {
                None
            },
            None => None,
        },
        None => None,
    }
}

/// The name that a header gives: what stands before the stereotype.
pub open spec fn header_name(part: Seq<char>) -> Seq<char> {
    match stereotype_span(part) {
        Some(span) => trimmed(part.take(span.0)),
        None => part,
    }
}

/// The stereotype that a header gives: what stands between `<<` and `>>`.
pub open spec fn header_stereotype(part: Seq<char>) -> Option<Seq<char>> {
    match stereotype_span(part) {
        Some(span) => Some(trimmed(part.subrange(span.0 + 2, span.1))),
        None => None,
    }
}

/// A text that can stand for a name or a stereotype: without white space at
/// its ends.
pub open spec fn tidy(s: Seq<char>) -> bool {
    s.len() == 0 || (!is_space(s[0]) && !is_space(s.last()))
}

/// The text of a header after its keyword: the name, the stereotype in angle
/// quotes, and the brace where a body follows.
pub open spec fn header_text(name: Seq<char>, stereotype: Seq<char>, body: bool) -> Seq<char> {
    name + "<<"@ + stereotype + ">>"@ + if body {
        " {"@
    } else {
        Seq::empty()
    }
}

/// A header is read as it was written: a name without `<` and a stereotype
/// without `>`, put into a header, are the name and the stereotype that the
/// header gives, and the header opens a body exactly where it was written
/// with a brace.
pub proof fn header_is_read_as_written(name: Seq<char>, stereotype: Seq<char>, body: bool)
    requires
        tidy(name),
        tidy(stereotype),
        forall|i: int| 0 <= i < name.len() ==> name[i] != '<',
        forall|i: int| 0 <= i < stereotype.len() ==> stereotype[i] != '>',
    ensures
        opens_body(header_text(name, stereotype, body)) == body,
        header_name(name_part(header_text(name, stereotype, body))) == name,
        header_stereotype(name_part(header_text(name, stereotype, body))) == Some(stereotype),
{
    reveal_strlit("<<");
    reveal_strlit(">>");
    reveal_strlit(" {");
    let rest = header_text(name, stereotype, body);
    let part = name + "<<"@ + stereotype + ">>"@;
    let n = name.len() as int;
    let m = stereotype.len() as int;
    assert(part.len() == n + m + 4);
    assert(part[n] == '<' && part[n + 1] == '<');
    assert(part[n + m + 2] == '>' && part[n + m + 3] == '>');
    assert(!is_space(part[0])) by {
        if n > 0 {
            assert(part[0] == name[0]);
        }
    }
    lemma_trimmed_same(part);
    if body {
        assert(rest =~= part.push(' ').push('{'));
        lemma_trimmed_same(rest);
        assert(rest.drop_last() =~= part.push(' '));
        assert(trimmed(part.push(' ')) == part) by {
            // Nothing stands before the text to take away, and the blank after
            // it goes.
            assert(trimmed_start(part.push(' ')) == part.push(' ')) by {
                assert(part.push(' ')[0] == part[0]);
            }
            lemma_trimmed_end_space(part, ' ');
        }
    } else {
        assert(rest =~= part);
    }
    assert(name_part(rest) == part);
    // The first `<<` stands right behind the name.
    assert(occurs_at(part, "<<"@, n)) by {
        assert(part.subrange(n, n + 2) =~= "<<"@);
    }
    assert forall|j: int| 0 <= j < n implies !occurs_at(part, "<<"@, j) by {
        if occurs_at(part, "<<"@, j) {
            lemma_occurrence_char(part, "<<"@, j, 0);
            assert(part[j] == name[j]);
        }
    }
    lemma_first_occurrence(part, "<<"@, 0, n);
    // The first `>>` after it stands right behind the stereotype.
    assert(occurs_at(part, ">>"@, n + 2 + m)) by {
        assert(part.subrange(n + 2 + m, n + 4 + m) =~= ">>"@);
    }
    assert forall|j: int| n + 2 <= j < n + 2 + m implies !occurs_at(part, ">>"@, j) by {
        if occurs_at(part, ">>"@, j) {
            lemma_occurrence_char(part, ">>"@, j, 0);
            assert(part[j] == stereotype[j - n - 2]);
        }
    }
    lemma_first_occurrence(part, ">>"@, n + 2, n + 2 + m);
    assert(stereotype_span(part) == Some((n, n + 2 + m)));
    assert(part.take(n) =~= name);
    assert(part.subrange(n + 2, n + 2 + m) =~= stereotype);
    lemma_trimmed_same(name);
    lemma_trimmed_same(stereotype);
}

/// A header without a stereotype is read as it was written: the name is the
/// text after the keyword, without the brace.
pub proof fn plain_header_is_read_as_written(name: Seq<char>, body: bool)
    requires
        name.len() > 0,
        tidy(name),
        forall|i: int| 0 <= i < name.len() ==> name[i] != '<' && name[i] != '{',
    ensures
        opens_body(
            name + if body {
                " {"@
            } else {
                Seq::empty()
            },
        ) == body,
        header_name(
            name_part(
                name + if body {
                    " {"@
                } else {
                    Seq::empty()
                },
            ),
        ) == name,
        header_stereotype(
            name_part(
                name + if body {
                    " {"@
                } else {
                    Seq::empty()
                },
            ),
        ) is None,
{
    reveal_strlit("<<");
    reveal_strlit(" {");
    let rest = name + if body {
        " {"@
    } else {
        Seq::empty()
    };
    lemma_trimmed_same(name);
    if body {
        assert(rest =~= name.push(' ').push('{'));
        lemma_trimmed_same(rest);
        assert(rest.drop_last() =~= name.push(' '));
        assert(trimmed(name.push(' ')) == name) by {
            assert(trimmed_start(name.push(' ')) == name.push(' ')) by {
                assert(name.push(' ')[0] == name[0]);
            }
            lemma_trimmed_end_space(name, ' ');
        }
    } else {
        assert(rest =~= name);
    }
    assert(name_part(rest) == name);
    lemma_index_of(name, "<<"@);
    assert(index_of(name, "<<"@) is None) by {
        if index_of(name, "<<"@) is Some {
            let k = index_of(name, "<<"@)->0;
            lemma_occurrence_char(name, "<<"@, k, 0);
        }
    }
}

/// Each keyword gives its kind, and the text behind it is what the header
/// goes on with.
pub proof fn keyword_gives_kind(rest: Seq<char>)
    ensures
        header("class "@ + rest) == Some((ClassType::Class, rest)),
        header("interface "@ + rest) == Some((ClassType::Interface, rest)),
        header("enum "@ + rest) == Some((ClassType::Enum, rest)),
        header("abstract class "@ + rest) == Some((ClassType::Abstract, rest)),
        !has_prefix(rest, "class "@) ==> header("abstract "@ + rest) == Some(
            (ClassType::Abstract, rest),
        ),
{
    reveal_strlit("class ");
    reveal_strlit("interface ");
    reveal_strlit("enum ");
    reveal_strlit("abstract class ");
    reveal_strlit("abstract ");
    lemma_prefix_of_concat("class "@, rest);
    lemma_prefix_of_concat("interface "@, rest);
    lemma_prefix_of_concat("enum "@, rest);
    lemma_prefix_of_concat("abstract class "@, rest);
    lemma_prefix_of_concat("abstract "@, rest);
    let c = "class "@ + rest;
    let e = "enum "@ + rest;
    let a = "abstract "@ + rest;
    assert(!has_prefix(c, "interface "@)) by {
        if has_prefix(c, "interface "@) {
            lemma_prefix_char(c, "interface "@, 0);
        }
    }
    assert(!has_prefix(c, "abstract class "@) && !has_prefix(c, "abstract "@) && !has_prefix(
        c,
        "enum "@,
    )) by {
        if has_prefix(c, "abstract class "@) {
            lemma_prefix_char(c, "abstract class "@, 0);
        }
        if has_prefix(c, "abstract "@) {
            lemma_prefix_char(c, "abstract "@, 0);
        }
        if has_prefix(c, "enum "@) {
            lemma_prefix_char(c, "enum "@, 0);
        }
    }
    assert(!has_prefix(e, "interface "@) && !has_prefix(e, "abstract class "@) && !has_prefix(
        e,
        "abstract "@,
    )) by {
        if has_prefix(e, "interface "@) {
            lemma_prefix_char(e, "interface "@, 0);
        }
        if has_prefix(e, "abstract class "@) {
            lemma_prefix_char(e, "abstract class "@, 0);
        }
        if has_prefix(e, "abstract "@) {
            lemma_prefix_char(e, "abstract "@, 0);
        }
    }
    let ac = "abstract class "@ + rest;
    assert(!has_prefix(ac, "interface "@)) by {
        if has_prefix(ac, "interface "@) {
            lemma_prefix_char(ac, "interface "@, 0);
        }
    }
    assert(!has_prefix(a, "interface "@)) by {
        if has_prefix(a, "interface "@) {
            lemma_prefix_char(a, "interface "@, 0);
        }
    }
    if !has_prefix(rest, "class "@) {
        assert(!has_prefix(a, "abstract class "@)) by {
            if has_prefix(a, "abstract class "@) {
                assert(a.subrange(0, 15).subrange(9, 15) =~= a.skip(9).subrange(0, 6));
                assert("abstract class "@.subrange(9, 15) =~= "class "@);
            }
        }
    }
}

/// The state after a header line: the entity is declared anew, and its body
/// is open where the line ends in a brace.
pub open spec fn declare(st: ParserView, line: Seq<char>) -> ParserView {
    match header(line) {
        Some(h) => {
            let part = name_part(h.1);
            ParserView {
                classes: with_declared(
                    st.classes,
                    blank(header_name(part), h.0, header_stereotype(part)),
                ),
                relationships: st.relationships,
                current: if opens_body(h.1) {
                    Some(header_name(part))
                } else {
                    st.current
                },
            }
        },
        None => st,
    }
}

// ---------------------------------------------------------------------------
// Members
// ---------------------------------------------------------------------------

/// The visibility that a member line begins with.
pub open spec fn member_visibility(line: Seq<char>) -> Option<Visibility> {
    if line.len() > 0 {
        Visibility::of_char(line[0])
    } else {
        None
    }
}

/// The member line after its visibility symbol.
pub open spec fn member_rest(line: Seq<char>) -> Seq<char> {
    if member_visibility(line) is Some {
        trimmed(line.skip(1))
    } else {
        line
    }
}

/// The member is marked as static.
pub open spec fn marked_static(rest: Seq<char>) -> bool {
    includes(rest, "{static}"@) || includes(rest, "{classifier}"@)
}

/// The member is marked as abstract.
pub open spec fn marked_abstract(rest: Seq<char>) -> bool {
    includes(rest, "{abstract}"@)
}

/// A field's text without its markers.
pub open spec fn field_text(rest: Seq<char>) -> Seq<char> {
    trimmed(without(without(rest, "{static}"@), "{classifier}"@))
}

/// The field that a member line declares: its name before the first colon,
/// its type after it.
pub open spec fn parsed_field(visibility: Option<Visibility>, rest: Seq<char>) -> FieldView {
    let t = field_text(rest);
    match char_index(t, ':') {
        Some(c) => FieldView {
            visibility,
            name: trimmed(t.take(c)),
            field_type: Some(trimmed(t.skip(c + 1))),
            is_static: marked_static(rest),
        },
        None => FieldView { visibility, name: t, field_type: None, is_static: marked_static(rest) },
    }
}

/// A method's text without its markers.
pub open spec fn method_text(rest: Seq<char>) -> Seq<char> {
    trimmed(without(without(without(rest, "{static}"@), "{classifier}"@), "{abstract}"@))
}

/// The return type of a method: what follows the first colon at or after
/// index `b`.
pub open spec fn return_type(t: Seq<char>, b: int) -> Option<Seq<char>> {
    match char_index_from(t, ':', b) {
        Some(c) => Some(trimmed(t.skip(c + 1))),
        None => None,
    }
}

/// The method that a member line declares: its name before the first opening
/// parenthesis, its parameters up to the first closing parenthesis after
/// that, and its return type after the colon that follows. `None` where a
/// parenthesis is missing.
pub open spec fn parsed_method(visibility: Option<Visibility>, rest: Seq<char>) -> Option<
    MethodView,
> {
    let t = method_text(rest);
    match char_index(t, '(') {
        Some(a) => match char_index_from(t, ')', a + 1) {
            Some(b) => if 0 <= a < b <= t.len() {
                Some(
                    MethodView {
                        visibility,
                        name: trimmed(t.take(a)),
                        params: trimmed(t.subrange(a + 1, b)),
                        return_type: return_type(t, b),
                        is_static: marked_static(rest),
                        is_abstract: marked_abstract(rest),
                    },
                )
            } else {
                None
            },
            None => None,
        },
        None => None,
    }
}

/// The entities after a line of the body of the entity `name`: a line with
/// an opening parenthesis declares a method, any other line a field; a lone
/// brace declares nothing.
pub open spec fn with_member(classes: Seq<ClassDefView>, name: Seq<char>, line: Seq<char>) -> Seq<
    ClassDefView,
> {
    let rest = member_rest(line);
    if line.len() == 0 || line == "{"@ {
        classes
    } else if char_index(rest, '(') is Some {
        match parsed_method(member_visibility(line), rest) {
            Some(m) => with_method(classes, name, m),
            None => classes,
        }
    } else {
        with_field(classes, name, parsed_field(member_visibility(line), rest))
    }
}

// ---------------------------------------------------------------------------
// Relationships
// ---------------------------------------------------------------------------

/// The number of relationship tokens.
pub open spec fn token_count() -> int {
    13
}

/// The relationship tokens, in the order in which a line is tried against
/// them: the longer and more specific first.
pub open spec fn token_text(i: int) -> Seq<char> {
    if i == 0 {
        "--|>"@
    } else if i == 1 {
        "<|--"@
    } else if i == 2 {
        "..|>"@
    } else if i == 3 {
        "<|.."@
    } else if i == 4 {
        "*--"@
    } else if i == 5 {
        "--*"@
    } else if i == 6 {
        "o--"@
    } else if i == 7 {
        "--o"@
    } else if i == 8 {
        "..>"@
    } else if i == 9 {
        "<.."@
    } else if i == 10 {
        "-->"@
    } else if i == 11 {
        "<--"@
    } else {
        "--"@
    }
}

/// The kind of relationship that each token stands for.
pub open spec fn token_kind(i: int) -> RelationType {
    if i == 0 || i == 1 {
        RelationType::Inheritance
    } else if i == 2 || i == 3 {
        RelationType::Realization
    } else if i == 4 || i == 5 {
        RelationType::Composition
    } else if i == 6 || i == 7 {
        RelationType::Aggregation
    } else if i == 8 || i == 9 {
        RelationType::Dependency
    } else if i == 10 || i == 11 {
        RelationType::DirectedAssoc
    } else {
        RelationType::Association
    }
}

/// A token points to the left: it begins with `<`.
pub open spec fn left_pointing(token: Seq<char>) -> bool {
    token.len() > 0 && token[0] == '<'
}

/// The operand to the left of the token that stands at index `p`.
pub open spec fn left_operand(line: Seq<char>, p: int) -> Seq<char> {
    trimmed(line.take(p))
}

/// What follows the token that stands at index `p`.
pub open spec fn right_part(line: Seq<char>, token: Seq<char>, p: int) -> Seq<char> {
    trimmed(line.skip(p + token.len()))
}

/// The operand to the right of the token: what follows it, up to the first
/// colon.
pub open spec fn right_operand(part: Seq<char>) -> Seq<char> {
    match char_index(part, ':') {
        Some(c) => trimmed(part.take(c)),
        None => part,
    }
}

/// The label: what follows the first colon after the token.
pub open spec fn label_of(part: Seq<char>) -> Option<Seq<char>> {
    match char_index(part, ':') {
        Some(c) => Some(trimmed(part.skip(c + 1))),
        None => None,
    }
}

/// The relationship that a line states by one token: the token's first
/// occurrence parts the line in two operands, neither of them empty. The
/// relationship runs from the left operand to the right one, and the other
/// way round where the token points to the left.
pub open spec fn relation_by(line: Seq<char>, token: Seq<char>, kind: RelationType) -> Option<
    RelationshipView,
> {
    match index_of(line, token) {
        Some(p) => {
            let left = left_operand(line, p);
            let part = right_part(line, token, p);
            let right = right_operand(part);
            if left.len() == 0 || right.len() == 0 {
                None
            } else if left_pointing(token) {
                Some(RelationshipView { from: right, to: left, rel_type: kind, label: label_of(part) })
            } else {
                Some(RelationshipView { from: left, to: right, rel_type: kind, label: label_of(part) })
            }
        },
        None => None,
    }
}

/// The direction of a relationship follows from its token alone: it runs
/// from the left operand to the right one, and the other way round exactly
/// where the token points to the left. Its kind is that of the token.
pub proof fn direction_follows_token(line: Seq<char>, token: Seq<char>, kind: RelationType)
    ensures
        match relation_by(line, token, kind) {
            Some(r) => match index_of(line, token) {
                Some(p) => r.rel_type == kind && r.from == if left_pointing(token) {
                    right_operand(right_part(line, token, p))
                } else {
                    left_operand(line, p)
                } && r.to == if left_pointing(token) {
                    left_operand(line, p)
                } else {
                    right_operand(right_part(line, token, p))
                },
                None => false,
            },
            None => true,
        },
{
}

/// Of the thirteen tokens, four point to the left: `<|--`, `<|..`, `<..` and
/// `<--`.
pub proof fn tokens_that_point_left(i: int)
    requires
        0 <= i < token_count(),
    ensures
        left_pointing(token_text(i)) <==> (i == 1 || i == 3 || i == 9 || i == 11),
{
    reveal_strlit("--|>");
    reveal_strlit("<|--");
    reveal_strlit("..|>");
    reveal_strlit("<|..");
    reveal_strlit("*--");
    reveal_strlit("--*");
    reveal_strlit("o--");
    reveal_strlit("--o");
    reveal_strlit("..>");
    reveal_strlit("<..");
    reveal_strlit("-->");
    reveal_strlit("<--");
    reveal_strlit("--");
}

/// The relationship that a line states by the first token, from token `i`
/// on, that gives one.
pub open spec fn relation_from(line: Seq<char>, i: int) -> Option<RelationshipView>
    decreases token_count() - i,
{
    if i < 0 || i >= token_count() {
        None
    } else {
        match relation_by(line, token_text(i), token_kind(i)) {
            Some(r) => Some(r),
            None => relation_from(line, i + 1),
        }
    }
}

/// The relationship that a line states.
pub open spec fn parsed_relation(line: Seq<char>) -> Option<RelationshipView> {
    relation_from(line, 0)
}

/// The state after a line outside any body that is no header: where it
/// states a relationship, both ends are entities from now on and the
/// relationship is the last of the list.
pub open spec fn relate(st: ParserView, line: Seq<char>) -> ParserView {
    match parsed_relation(line) {
        Some(r) => ParserView {
            classes: with_ensured(with_ensured(st.classes, r.from), r.to),
            relationships: st.relationships.push(r),
            current: st.current,
        },
        None => st,
    }
}

// ---------------------------------------------------------------------------
// Lines
// ---------------------------------------------------------------------------

/// A line begins with a keyword that declares an entity.
pub open spec fn is_header(line: Seq<char>) -> bool {
    has_prefix(line, "class "@) || has_prefix(line, "interface "@) || has_prefix(
        line,
        "abstract "@,
    ) || has_prefix(line, "enum "@)
}

/// The state after one line of the diagram. A lone closing brace closes the
/// open body. Inside a body a line declares a member. Outside, a line is a
/// header or else is tried as a relationship.
pub open spec fn step(st: ParserView, line: Seq<char>) -> ParserView {
    if line == "}"@ {
        ParserView { classes: st.classes, relationships: st.relationships, current: None }
    } else {
        match st.current {
            Some(name) => ParserView {
                classes: with_member(st.classes, name, line),
                relationships: st.relationships,
                current: st.current,
            },
            None => if is_header(line) {
                declare(st, line)
            } else {
                relate(st, line)
            },
        }
    }
}

/// A line that is passed over wherever it stands: an empty line, a comment,
/// a `skinparam` line.
pub open spec fn passed_over(t: Seq<char>) -> bool {
    t.len() == 0 || has_prefix(t, "//"@) || has_prefix(t, "skinparam"@)
}

/// The state after the lines `ls`. Only the lines between `@start_uml` and
/// `@end_uml` count; `inside` says whether the first was passed.
pub open spec fn scan(st: ParserView, inside: bool, ls: Seq<Seq<char>>) -> ParserView
    decreases ls.len(),
{
    if ls.len() == 0 {
        st
    } else {
        let t = trimmed(ls[0]);
        if passed_over(t) {
            scan(st, inside, ls.drop_first())
        } else if has_prefix(t, "@start_uml"@) {
            scan(st, true, ls.drop_first())
        } else if has_prefix(t, "@end_uml"@) {
            st
        } else if inside {
            scan(step(st, t), true, ls.drop_first())
        } else {
            scan(st, false, ls.drop_first())
        }
    }
}

/// The state of a parser that has read nothing.
pub open spec fn fresh() -> ParserView {
    ParserView { classes: Seq::empty(), relationships: Seq::empty(), current: None }
}

/// The diagram that a source text describes.
pub open spec fn parsed(source: Seq<char>) -> ClassDiagramView {
    diagram_of(scan(fresh(), false, lines_of(source)))
}

// ---------------------------------------------------------------------------
// What holds of every diagram that is read
// ---------------------------------------------------------------------------

/// The entities and relationships of a state as a diagram.
pub open spec fn diagram_of(st: ParserView) -> ClassDiagramView {
    ClassDiagramView { classes: st.classes, relationships: st.relationships }
}

/// Two lists name the same entities in the same places.
pub open spec fn same_names(a: Seq<ClassDefView>, b: Seq<ClassDefView>) -> bool {
    a.len() == b.len() && forall|i: int| 0 <= i < a.len() ==> (#[trigger] a[i]).name == b[i].name
}

/// Every entity of `a` is an entity of `b`, by its name.
pub open spec fn names_kept(a: Seq<ClassDefView>, b: Seq<ClassDefView>) -> bool {
    forall|name: Seq<char>| declared(a, name) ==> declared(b, name)
}

proof fn lemma_same_names(a: Seq<ClassDefView>, b: Seq<ClassDefView>)
    requires
        same_names(a, b),
    ensures
        names_kept(a, b),
        distinct(a) ==> distinct(b),
{
    assert forall|name: Seq<char>| declared(a, name) implies declared(b, name) by {
        let i = choose|i: int| 0 <= i < a.len() && (#[trigger] a[i]).name == name;
        assert(b[i].name == name);
    }
    if distinct(a) {
        assert forall|i: int, j: int| 0 <= i < j < b.len() implies (#[trigger] b[i]).name != (
        #[trigger] b[j]).name by {
            assert(a[i].name == b[i].name && a[j].name == b[j].name);
        }
    }
}

proof fn lemma_pushed(classes: Seq<ClassDefView>, e: ClassDefView)
    requires
        !declared(classes, e.name),
    ensures
        names_kept(classes, classes.push(e)),
        declared(classes.push(e), e.name),
        distinct(classes) ==> distinct(classes.push(e)),
{
    let grown = classes.push(e);
    assert forall|name: Seq<char>| declared(classes, name) implies declared(grown, name) by {
        let i = choose|i: int| 0 <= i < classes.len() && (#[trigger] classes[i]).name == name;
        assert(grown[i].name == name);
    }
    assert(grown[classes.len() as int].name == e.name);
    if distinct(classes) {
        assert forall|i: int, j: int| 0 <= i < j < grown.len() implies (#[trigger] grown[i]).name
            != (#[trigger] grown[j]).name by {
            assert(grown[i] == classes[i]);
            if j < classes.len() {
                assert(grown[j] == classes[j]);
            }
        }
    }
}

/// Declaring an entity keeps every entity, by its name, and keeps the names
/// distinct; the declared entity is one of them.
pub proof fn lemma_with_declared(classes: Seq<ClassDefView>, e: ClassDefView)
    ensures
        names_kept(classes, with_declared(classes, e)),
        declared(with_declared(classes, e), e.name),
        distinct(classes) ==> distinct(with_declared(classes, e)),
{
    lemma_position(classes, e.name);
    match position(classes, e.name) {
        Some(i) => {
            let after = classes.update(i, e);
            assert(same_names(classes, after));
            lemma_same_names(classes, after);
            assert(after[i].name == e.name);
        },
        None => {
            lemma_pushed(classes, e);
        },
    }
}

/// Referring to an entity keeps every entity, by its name, and keeps the
/// names distinct; the entity referred to is one of them.
pub proof fn lemma_with_ensured(classes: Seq<ClassDefView>, name: Seq<char>)
    ensures
        names_kept(classes, with_ensured(classes, name)),
        declared(with_ensured(classes, name), name),
        distinct(classes) ==> distinct(with_ensured(classes, name)),
{
    lemma_position(classes, name);
    if position(classes, name) is None {
        lemma_pushed(classes, blank(name, ClassType::Class, None));
    }
}

proof fn lemma_with_member(classes: Seq<ClassDefView>, name: Seq<char>, line: Seq<char>)
    ensures
        same_names(classes, with_member(classes, name, line)),
{
    lemma_position(classes, name);
}

/// One line keeps a well-formed state well formed.
pub proof fn lemma_step_wf(st: ParserView, line: Seq<char>)
    requires
        diagram_of(st).wf(),
    ensures
        diagram_of(step(st, line)).wf(),
{
    let after = step(st, line);
    if line == "}"@ {
    } else if st.current is Some {
        lemma_with_member(st.classes, st.current->0, line);
        lemma_same_names(st.classes, after.classes);
    } else if is_header(line) {
        match header(line) {
            Some(h) => {
                let part = name_part(h.1);
                lemma_with_declared(
                    st.classes,
                    blank(header_name(part), h.0, header_stereotype(part)),
                );
            },
            None => {},
        }
    } else {
        match parsed_relation(line) {
            Some(r) => {
                let first = with_ensured(st.classes, r.from);
                lemma_with_ensured(st.classes, r.from);
                lemma_with_ensured(first, r.to);
                assert forall|k: int| 0 <= k < after.relationships.len() implies declared(
                    after.classes,
                    (#[trigger] after.relationships[k]).from,
                ) && declared(after.classes, after.relationships[k].to) by {
                    if k < st.relationships.len() {
                        assert(after.relationships[k] == st.relationships[k]);
                        assert(declared(first, st.relationships[k].from));
                        assert(declared(first, st.relationships[k].to));
                    }
                }
            },
            None => {},
        }
    }
}

/// Any number of lines keeps a well-formed state well formed.
pub proof fn lemma_scan_wf(st: ParserView, inside: bool, ls: Seq<Seq<char>>)
    requires
        diagram_of(st).wf(),
    ensures
        diagram_of(scan(st, inside, ls)).wf(),
    decreases ls.len(),
{
    if ls.len() > 0 {
        let t = trimmed(ls[0]);
        if passed_over(t) {
            lemma_scan_wf(st, inside, ls.drop_first());
        } else if has_prefix(t, "@start_uml"@) {
            lemma_scan_wf(st, true, ls.drop_first());
        } else if has_prefix(t, "@end_uml"@) {
        } else if inside {
            lemma_step_wf(st, t);
            lemma_scan_wf(step(st, t), true, ls.drop_first());
        } else {
            lemma_scan_wf(st, false, ls.drop_first());
        }
    }
}

/// Every diagram that is read from a source text is well formed: no two
/// entities share a name, and each end of each relationship names an entity.
pub proof fn parsed_is_well_formed(source: Seq<char>)
    ensures
        parsed(source).wf(),
{
    lemma_scan_wf(fresh(), false, lines_of(source));
}

// ---------------------------------------------------------------------------
// The parser
// ---------------------------------------------------------------------------

/// The parser of class diagrams.
pub struct Parser {
    classes: Vec<ClassDef>,
    relationships: Vec<Relationship>,
    current_class: Option<Vec<char>>,
}

impl View for Parser {
    type V = ParserView;

    closed spec fn view(&self) -> ParserView {
        ParserView {
            classes: class_views(self.classes@),
            relationships: relationship_views(self.relationships@),
            current: opt_view(self.current_class),
        }
    }
}

/// The view of an optional relationship.
pub open spec fn opt_relationship(o: Option<Relationship>) -> Option<RelationshipView> {
    match o {
        Some(r) => Some(r@),
        None => None,
    }
}

/// The view of an optional method.
pub open spec fn opt_method(o: Option<Method>) -> Option<MethodView> {
    match o {
        Some(m) => Some(m@),
        None => None,
    }
}

fn find_class(classes: &Vec<ClassDef>, name: &[char]) -> (r: Option<usize>)
    ensures
        match r {
            Some(i) => position(class_views(classes@), name@) == Some(i as int) && i
                < classes@.len(),
            None => position(class_views(classes@), name@) is None,
        },
{
    let mut i: usize = 0;
    while i < classes.len()
        invariant
            i <= classes@.len(),
            position_from(class_views(classes@), name@, i as int) == position(
                class_views(classes@),
                name@,
            ),
        decreases classes@.len() - i,
    {
        if equals(name, classes[i].name.as_str()) {
            return Some(i);
        }
        i += 1;
    }
    None
}

fn blank_class(name: &[char], class_type: ClassType, stereotype: Option<String>) -> (r: ClassDef)
    ensures
        r@ == blank(name@, class_type, opt_string(stereotype)),
{
    let r = ClassDef {
        name: string_of(name),
        class_type,
        fields: Vec::new(),
        methods: Vec::new(),
        stereotype,
        x: Num::zero(),
        y: Num::zero(),
        width: Num::zero(),
        height: Num::zero(),
    };
    assert(r@.fields =~= Seq::<FieldView>::empty());
    assert(r@.methods =~= Seq::<MethodView>::empty());
    r
}

fn token(i: usize) -> (r: (&'static str, RelationType))
    requires
        i < 13,
    ensures
        r.0@ == token_text(i as int),
        r.1 == token_kind(i as int),
{
    if i == 0 {
        ("--|>", RelationType::Inheritance)
    } else if i == 1 {
        ("<|--", RelationType::Inheritance)
    } else if i == 2 {
        ("..|>", RelationType::Realization)
    } else if i == 3 {
        ("<|..", RelationType::Realization)
    } else if i == 4 {
        ("*--", RelationType::Composition)
    } else if i == 5 {
        ("--*", RelationType::Composition)
    } else if i == 6 {
        ("o--", RelationType::Aggregation)
    } else if i == 7 {
        ("--o", RelationType::Aggregation)
    } else if i == 8 {
        ("..>", RelationType::Dependency)
    } else if i == 9 {
        ("<..", RelationType::Dependency)
    } else if i == 10 {
        ("-->", RelationType::DirectedAssoc)
    } else if i == 11 {
        ("<--", RelationType::DirectedAssoc)
    } else {
        ("--", RelationType::Association)
    }
}

fn read_relation_by(line: &[char], tok: &str, kind: RelationType) -> (r: Option<Relationship>)
    ensures
        opt_relationship(r) == relation_by(line@, tok@, kind),
{
    let n: usize = line.len();
    let m: usize = tok.unicode_len();
    match find(line, tok) {
        None => None,
        Some(p) => {
            let left = trim(slice_subrange(line, 0, p));
            let part = trim(slice_subrange(line, p + m, n));
            proof {
                assert(line@.subrange(0, p as int) =~= line@.take(p as int));
                assert(line@.subrange(p + m, n as int) =~= line@.skip(p + m));
            }
            let pn: usize = part.len();
            let (right, label) = match find_char(part, ':') {
                Some(c) => {
                    proof {
                        assert(part@.subrange(0, c as int) =~= part@.take(c as int));
                        assert(part@.subrange(c + 1, pn as int) =~= part@.skip(c + 1));
                    }
                    (
                        trim(slice_subrange(part, 0, c)),
                        Some(string_of(trim(slice_subrange(part, c + 1, pn)))),
                    )
                },
                None => (part, None),
            };
            if left.len() == 0 || right.len() == 0 {
                None
            } else if m > 0 && tok.get_char(0) == '<' {
                Some(
                    Relationship {
                        from: string_of(right),
                        to: string_of(left),
                        rel_type: kind,
                        label,
                    },
                )
            } else {
                Some(
                    Relationship {
                        from: string_of(left),
                        to: string_of(right),
                        rel_type: kind,
                        label,
                    },
                )
            }
        },
    }
}

/// The relationship that a line states, if it states one.
pub fn read_relation(line: &[char]) -> (r: Option<Relationship>)
    ensures
        opt_relationship(r) == parsed_relation(line@),
{
    let mut i: usize = 0;
    while i < 13
        invariant
            i <= 13,
            relation_from(line@, i as int) == parsed_relation(line@),
        decreases 13 - i,
    {
        let (tok, kind) = token(i);
        let r = read_relation_by(line, tok, kind);
        if r.is_some() {
            return r;
        }
        i += 1;
    }
    None
}

fn read_field(visibility: Option<Visibility>, rest: &[char]) -> (r: Field)
    ensures
        r@ == parsed_field(visibility, rest@),
{
    let is_static = contains(rest, "{static}") || contains(rest, "{classifier}");
    let a = remove_all(rest, "{static}");
    let b = remove_all(a.as_slice(), "{classifier}");
    let t = trim(b.as_slice());
    let n: usize = t.len();
    match find_char(t, ':') {
        Some(c) => {
            proof {
                assert(t@.subrange(0, c as int) =~= t@.take(c as int));
                assert(t@.subrange(c + 1, n as int) =~= t@.skip(c + 1));
            }
            Field {
                visibility,
                name: string_of(trim(slice_subrange(t, 0, c))),
                field_type: Some(string_of(trim(slice_subrange(t, c + 1, n)))),
                is_static,
            }
        },
        None => Field { visibility, name: string_of(t), field_type: None, is_static },
    }
}

fn read_method(visibility: Option<Visibility>, rest: &[char]) -> (r: Option<Method>)
    ensures
        opt_method(r) == parsed_method(visibility, rest@),
{
    let is_static = contains(rest, "{static}") || contains(rest, "{classifier}");
    let is_abstract = contains(rest, "{abstract}");
    let a = remove_all(rest, "{static}");
    let b = remove_all(a.as_slice(), "{classifier}");
    let c = remove_all(b.as_slice(), "{abstract}");
    let t = trim(c.as_slice());
    let n: usize = t.len();
    match find_char(t, '(') {
        None => None,
        Some(open) => match find_char_from(t, open + 1, ')') {
            None => None,
            Some(close) => {
                let return_type = match find_char_from(t, close, ':') {
                    Some(colon) => {
                        assert(t@.subrange(colon + 1, n as int) =~= t@.skip(colon + 1));
                        Some(string_of(trim(slice_subrange(t, colon + 1, n))))
                    },
                    None => None,
                };
                assert(t@.subrange(0, open as int) =~= t@.take(open as int));
                Some(
                    Method {
                        visibility,
                        name: string_of(trim(slice_subrange(t, 0, open))),
                        params: string_of(trim(slice_subrange(t, open + 1, close))),
                        return_type,
                        is_static,
                        is_abstract,
                    },
                )
            },
        },
    }
}

impl Parser {
    /// A parser that has read nothing.
    pub fn new() -> (r: Parser)
        ensures
            r@ == fresh(),
    {
        let r = Parser { classes: Vec::new(), relationships: Vec::new(), current_class: None };
        assert(r@.classes =~= Seq::<ClassDefView>::empty());
        assert(r@.relationships =~= Seq::<RelationshipView>::empty());
        r
    }

    /// Reads a source text and hands out the diagram that it describes.
    pub fn parse(self, source: &str) -> (r: ClassDiagram)
        ensures
            r@ == diagram_of(scan(self@, false, lines_of(source@))),
            diagram_of(self@).wf() ==> r@.wf(),
    {
        proof {
            if diagram_of(self@).wf() {
                lemma_scan_wf(self@, false, lines_of(source@));
            }
        }
        let mut parser = self;
        let text = chars_of(source);
        let s = text.as_slice();
        let n: usize = s.len();
        let mut inside = false;
        let mut done = false;
        let mut pos: usize = 0;
        assert(s@.skip(0) =~= s@);
        while pos < n && !done
            invariant
                pos <= n,
                n == s@.len(),
                s@ == source@,
                !done ==> scan(parser@, inside, lines_of(s@.skip(pos as int))) == scan(
                    self@,
                    false,
                    lines_of(s@),
                ),
                done ==> parser@ == scan(self@, false, lines_of(s@)),
            decreases n - pos,
        {
            let (e, next) = next_line(s, pos);
            let t = trim(slice_subrange(s, pos, e));
            proof {
                lemma_lines_step(s@.skip(pos as int));
            }
            if t.len() == 0 || starts_with(t, "//") || starts_with(t, "skinparam") {
            } else if starts_with(t, "@start_uml") {
                inside = true;
            } else if starts_with(t, "@end_uml") {
                done = true;
            } else if inside {
                parser.parse_line(t);
            }
            pos = next;
        }
        proof {
            if !done {
                assert(s@.skip(n as int) =~= Seq::<char>::empty());
            }
        }
        ClassDiagram { classes: parser.classes, relationships: parser.relationships }
    }

    fn parse_line(&mut self, line: &[char])
        ensures
            final(self)@ == step(old(self)@, line@),
    {
        if equals(line, "}") {
            self.current_class = None;
            return ;
        }
        let current: Option<Vec<char>> = match &self.current_class {
            Some(name) => Some(name.clone()),
            None => None,
        };
        match current {
            Some(name) => {
                self.parse_member(name.as_slice(), line);
            },
            None => {
                if starts_with(line, "class ") || starts_with(line, "interface ") || starts_with(
                    line,
                    "abstract ",
                ) || starts_with(line, "enum ") {
                    self.parse_class_decl(line);
                } else {
                    self.try_parse_relationship(line);
                }
            },
        }
    }

    fn parse_class_decl(&mut self, line: &[char])
        ensures
            final(self)@ == declare(old(self)@, line@),
    {
        let (class_type, after) = if let Some(r) = strip_prefix(line, "interface ") {
            (ClassType::Interface, r)
        } else if let Some(r) = strip_prefix(line, "abstract class ") {
            (ClassType::Abstract, r)
        } else if let Some(r) = strip_prefix(line, "abstract ") {
            (ClassType::Abstract, r)
        } else if let Some(r) = strip_prefix(line, "enum ") {
            (ClassType::Enum, r)
        } else if let Some(r) = strip_prefix(line, "class ") {
            (ClassType::Class, r)
        } else {
            return ;
        };
        let rest = trim(after);
        let n: usize = rest.len();
        let has_body = n > 0 && rest[n - 1] == '{';
        let part = if has_body {
            assert(rest@.subrange(0, n - 1) =~= rest@.drop_last());
            trim(slice_subrange(rest, 0, n - 1))
        } else {
            rest
        };
        proof {
            reveal_strlit("<<");
        }
        let span: Option<(usize, usize)> = match find(part, "<<") {
            Some(a) => match find_from(part, a + 2, ">>") {
                Some(b) => Some((a, b)),
                None => None,
            },
            None => None,
        };
        let (name, stereotype) = match span {
            Some((a, b)) => {
                assert(part@.subrange(0, a as int) =~= part@.take(a as int));
                (
                    trim(slice_subrange(part, 0, a)),
                    Some(string_of(trim(slice_subrange(part, a + 2, b)))),
                )
            },
            None => (part, None),
        };
        let entity = blank_class(name, class_type, stereotype);
        self.put_class(entity);
        if has_body {
            let mut owned: Vec<char> = Vec::new();
            owned.extend_from_slice(name);
            assert(owned@ =~= name@);
            self.current_class = Some(owned);
        }
    }

    fn put_class(&mut self, entity: ClassDef)
        ensures
            final(self)@ == (ParserView {
                classes: with_declared(old(self)@.classes, entity@),
                ..old(self)@
            }),
    {
        let name = chars_of(entity.name.as_str());
        let ghost before = self.classes@;
        match find_class(&self.classes, name.as_slice()) {
            Some(i) => {
                self.classes[i] = entity;
                assert(class_views(self.classes@) =~= class_views(before).update(i as int, entity@));
            },
            None => {
                self.classes.push(entity);
                assert(class_views(self.classes@) =~= class_views(before).push(entity@));
            },
        }
    }

    fn parse_member(&mut self, class_name: &[char], line: &[char])
        ensures
            final(self)@ == (ParserView {
                classes: with_member(old(self)@.classes, class_name@, line@),
                ..old(self)@
            }),
    {
        if line.len() == 0 || equals(line, "{") {
            return ;
        }
        let visibility = Visibility::from_char(line[0]);
        let rest = if visibility.is_some() {
            assert(line@.subrange(1, line@.len() as int) =~= line@.skip(1));
            trim(slice_subrange(line, 1, line.len()))
        } else {
            line
        };
        if contains_char(rest, '(') {
            self.parse_method(class_name, visibility, rest);
        } else {
            self.parse_field(class_name, visibility, rest);
        }
    }

    fn parse_field(&mut self, class_name: &[char], visibility: Option<Visibility>, rest: &[char])
        ensures
            final(self)@ == (ParserView {
                classes: with_field(
                    old(self)@.classes,
                    class_name@,
                    parsed_field(visibility, rest@),
                ),
                ..old(self)@
            }),
    {
        let field = read_field(visibility, rest);
        let ghost before = self.classes@;
        match find_class(&self.classes, class_name) {
            Some(i) => {
                self.classes[i].fields.push(field);
                proof {
                    let grown = ClassDefView {
                        fields: class_views(before)[i as int].fields.push(field@),
                        ..class_views(before)[i as int]
                    };
                    assert(self.classes@[i as int]@.fields =~= grown.fields);
                    assert(class_views(self.classes@) =~= class_views(before).update(
                        i as int,
                        grown,
                    ));
                }
            },
            None => {
                assert(class_views(self.classes@) =~= class_views(before));
            },
        }
    }

    fn parse_method(&mut self, class_name: &[char], visibility: Option<Visibility>, rest: &[char])
        ensures
            final(self)@ == (ParserView {
                classes: match parsed_method(visibility, rest@) {
                    Some(m) => with_method(old(self)@.classes, class_name@, m),
                    None => old(self)@.classes,
                },
                ..old(self)@
            }),
    {
        let method = match read_method(visibility, rest) {
            Some(m) => m,
            None => {
                return ;
            },
        };
        let ghost before = self.classes@;
        match find_class(&self.classes, class_name) {
            Some(i) => {
                self.classes[i].methods.push(method);
                proof {
                    let grown = ClassDefView {
                        methods: class_views(before)[i as int].methods.push(method@),
                        ..class_views(before)[i as int]
                    };
                    assert(self.classes@[i as int]@.methods =~= grown.methods);
                    assert(class_views(self.classes@) =~= class_views(before).update(
                        i as int,
                        grown,
                    ));
                }
            },
            None => {
                assert(class_views(self.classes@) =~= class_views(before));
            },
        }
    }

    fn try_parse_relationship(&mut self, line: &[char])
        ensures
            final(self)@ == relate(old(self)@, line@),
    {
        match read_relation(line) {
            Some(r) => {
                let from = chars_of(r.from.as_str());
                let to = chars_of(r.to.as_str());
                self.ensure_class(from.as_slice());
                self.ensure_class(to.as_slice());
                let ghost before = self.relationships@;
                self.relationships.push(r);
                assert(relationship_views(self.relationships@) =~= relationship_views(before).push(
                    r@,
                ));
            },
            None => {},
        }
    }

    fn ensure_class(&mut self, name: &[char])
        ensures
            final(self)@ == (ParserView {
                classes: with_ensured(old(self)@.classes, name@),
                ..old(self)@
            }),
    {
        let ghost before = self.classes@;
        if find_class(&self.classes, name).is_none() {
            let entity = blank_class(name, ClassType::Class, None);
            self.classes.push(entity);
            assert(class_views(self.classes@) =~= class_views(before).push(entity@));
        }
    }
}

} // verus!
