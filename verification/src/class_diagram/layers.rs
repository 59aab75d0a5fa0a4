//! The layers of a class diagram: how far each entity stands from the roots
//! of the hierarchy that the relationships span.

use crate::class_diagram::model::{
    ClassDiagram, ClassDiagramView, ClassDefView, RelationType, RelationshipView,
};
use vstd::prelude::*;

verus! {

// ---------------------------------------------------------------------------
// The hierarchy
// ---------------------------------------------------------------------------

/// The names of the entities, in their order.
pub open spec fn names_of(d: ClassDiagramView) -> Seq<Seq<char>> {
    d.classes.map_values(|e: ClassDefView| e.name)
}

/// An "is a" relationship: it runs from the child to the parent.
pub open spec fn is_a(kind: RelationType) -> bool {
    kind == RelationType::Inheritance || kind == RelationType::Realization
}

/// A "has a" relationship: it runs from the owner to the part.
pub open spec fn owns(kind: RelationType) -> bool {
    kind == RelationType::Composition || kind == RelationType::Aggregation
}

/// The end of a relationship that stands higher: the parent, or the owner.
pub open spec fn upper(r: RelationshipView) -> Seq<char> {
    if is_a(r.rel_type) {
        r.to
    } else {
        r.from
    }
}

/// The end of a relationship that stands lower: the child, or the part.
pub open spec fn lower(r: RelationshipView) -> Seq<char> {
    if is_a(r.rel_type) {
        r.from
    } else {
        r.to
    }
}

/// The relationship puts `child` one layer below `parent`.
pub open spec fn links(r: RelationshipView, parent: Seq<char>, child: Seq<char>) -> bool {
    (is_a(r.rel_type) || owns(r.rel_type)) && upper(r) == parent && lower(r) == child
}

/// Some relationship puts `child` one layer below `parent`.
pub open spec fn edge(rels: Seq<RelationshipView>, parent: Seq<char>, child: Seq<char>) -> bool {
    exists|q: int| 0 <= q < rels.len() && links(#[trigger] rels[q], parent, child)
}

/// The entity of this name has a parent: an "is a" relationship runs from it.
pub open spec fn derives(rels: Seq<RelationshipView>, name: Seq<char>) -> bool {
    exists|q: int| 0 <= q < rels.len() && is_a((#[trigger] rels[q]).rel_type) && rels[q].from == name
}

/// Some entity has no parent.
pub open spec fn any_root(names: Seq<Seq<char>>, rels: Seq<RelationshipView>) -> bool {
    exists|i: int| 0 <= i < names.len() && !derives(rels, #[trigger] names[i])
}

/// Entity `i` is a root: it has no parent, or, where every entity has one, it
/// is the first.
pub open spec fn is_root(names: Seq<Seq<char>>, rels: Seq<RelationshipView>, i: int) -> bool {
    0 <= i < names.len() && if any_root(names, rels) {
        !derives(rels, names[i])
    } else {
        i == 0
    }
}

/// Entity `i` can be reached from a root in at most `k` steps, each from an
/// entity to one that a relationship puts below it.
pub open spec fn within(names: Seq<Seq<char>>, rels: Seq<RelationshipView>, i: int, k: nat) -> bool
    decreases k,
{
    0 <= i < names.len() && (is_root(names, rels, i) || (k > 0 && exists|p: int|
        0 <= p < names.len() && within(names, rels, p, (k - 1) as nat) && #[trigger] edge(
            rels,
            names[p],
            names[i],
        )))
}

/// Entity `i` can be reached from a root in `k` steps and in no fewer.
pub open spec fn minimal(names: Seq<Seq<char>>, rels: Seq<RelationshipView>, i: int, k: nat) -> bool {
    within(names, rels, i, k) && (k > 0 ==> !within(names, rels, i, (k - 1) as nat))
}

/// Entity `i` can be reached from a root.
pub open spec fn reached(names: Seq<Seq<char>>, rels: Seq<RelationshipView>, i: int) -> bool {
    exists|k: nat| within(names, rels, i, k)
}

/// The least number of steps in which entity `i` can be reached from a root.
pub open spec fn depth(names: Seq<Seq<char>>, rels: Seq<RelationshipView>, i: int) -> nat {
    choose|k: nat| minimal(names, rels, i, k)
}

/// `m` is the depth of the deepest entity that can be reached.
pub open spec fn deepest_is(names: Seq<Seq<char>>, rels: Seq<RelationshipView>, m: nat) -> bool {
    &&& exists|i: int| 0 <= i < names.len() && #[trigger] minimal(names, rels, i, m)
    &&& forall|i: int, k: nat| 0 <= i < names.len() && #[trigger] minimal(names, rels, i, k) ==> k <= m
}

/// The depth of the deepest entity that can be reached.
pub open spec fn deepest(names: Seq<Seq<char>>, rels: Seq<RelationshipView>) -> nat {
    choose|m: nat| deepest_is(names, rels, m)
}

/// The layer of entity `i`: its depth where it can be reached from a root,
/// else the layer below the deepest.
pub open spec fn layer(names: Seq<Seq<char>>, rels: Seq<RelationshipView>, i: int) -> nat {
    if reached(names, rels, i) {
        depth(names, rels, i)
    } else {
        deepest(names, rels) + 1
    }
}

/// The layers of all entities.
pub open spec fn layers_of(d: ClassDiagramView) -> Seq<nat> {
    Seq::new(d.classes.len(), |i: int| layer(names_of(d), d.relationships, i))
}

// ---------------------------------------------------------------------------
// Facts about reaching
// ---------------------------------------------------------------------------

/// What can be reached in `k` steps can be reached in more.
pub proof fn lemma_within_more(
    names: Seq<Seq<char>>,
    rels: Seq<RelationshipView>,
    i: int,
    k: nat,
    m: nat,
)
    requires
        within(names, rels, i, k),
        k <= m,
    ensures
        within(names, rels, i, m),
    decreases k,
{
    if !is_root(names, rels, i) {
        let p = choose|p: int|
            0 <= p < names.len() && within(names, rels, p, (k - 1) as nat) && #[trigger] edge(
                rels,
                names[p],
                names[i],
            );
        lemma_within_more(names, rels, p, (k - 1) as nat, (m - 1) as nat);
    }
}

/// An entity has one depth only.
pub proof fn lemma_minimal_unique(
    names: Seq<Seq<char>>,
    rels: Seq<RelationshipView>,
    i: int,
    a: nat,
    b: nat,
)
    requires
        minimal(names, rels, i, a),
        minimal(names, rels, i, b),
    ensures
        a == b,
{
    if a < b {
        lemma_within_more(names, rels, i, a, (b - 1) as nat);
    }
    if b < a {
        lemma_within_more(names, rels, i, b, (a - 1) as nat);
    }
}

/// An entity that can be reached in `k` steps and no fewer has the depth and
/// the layer `k`.
pub proof fn lemma_depth(names: Seq<Seq<char>>, rels: Seq<RelationshipView>, i: int, k: nat)
    requires
        minimal(names, rels, i, k),
    ensures
        reached(names, rels, i),
        depth(names, rels, i) == k,
        layer(names, rels, i) == k,
{
    lemma_minimal_unique(names, rels, i, k, depth(names, rels, i));
}

/// Where a step more reaches nothing new, no number of steps does.
pub proof fn lemma_closed(names: Seq<Seq<char>>, rels: Seq<RelationshipView>, d: nat, i: int, k: nat)
    requires
        forall|j: int| #[trigger] within(names, rels, j, d + 1) ==> within(names, rels, j, d),
        within(names, rels, i, k),
    ensures
        within(names, rels, i, d),
    decreases k,
{
    if k <= d {
        lemma_within_more(names, rels, i, k, d);
    } else if !is_root(names, rels, i) {
        let p = choose|p: int|
            0 <= p < names.len() && within(names, rels, p, (k - 1) as nat) && #[trigger] edge(
                rels,
                names[p],
                names[i],
            );
        lemma_closed(names, rels, d, p, (k - 1) as nat);
        assert(within(names, rels, i, d + 1));
    }
}

/// The depth that is the deepest is the only one.
pub proof fn lemma_deepest(names: Seq<Seq<char>>, rels: Seq<RelationshipView>, m: nat)
    requires
        deepest_is(names, rels, m),
    ensures
        deepest(names, rels) == m,
{
    let c = deepest(names, rels);
    assert(deepest_is(names, rels, c));
}

// ---------------------------------------------------------------------------
// Finding the layers
// ---------------------------------------------------------------------------

/// How many entities have no layer yet.
pub open spec fn nones(level: Seq<Option<usize>>) -> nat
    decreases level.len(),
{
    if level.len() == 0 {
        0
    } else {
        nones(level.drop_last()) + if level.last() is None {
            1nat
        } else {
            0nat
        }
    }
}

proof fn lemma_nones_bound(level: Seq<Option<usize>>)
    ensures
        nones(level) <= level.len(),
    decreases level.len(),
{
    if level.len() > 0 {
        lemma_nones_bound(level.drop_last());
    }
}

proof fn lemma_nones_some(level: Seq<Option<usize>>, i: int)
    requires
        0 <= i < level.len(),
        level[i] is Some,
    ensures
        nones(level) < level.len(),
    decreases level.len(),
{
    if i == level.len() - 1 {
        lemma_nones_bound(level.drop_last());
    } else {
        lemma_nones_some(level.drop_last(), i);
    }
}

proof fn lemma_nones_none(level: Seq<Option<usize>>, i: int)
    requires
        0 <= i < level.len(),
        level[i] is None,
    ensures
        nones(level) >= 1,
    decreases level.len(),
{
    if i < level.len() - 1 {
        lemma_nones_none(level.drop_last(), i);
    }
}

proof fn lemma_nones_update(level: Seq<Option<usize>>, c: int, v: usize)
    requires
        0 <= c < level.len(),
        level[c] is None,
    ensures
        nones(level.update(c, Some(v))) + 1 == nones(level),
    decreases level.len(),
{
    let after = level.update(c, Some(v));
    if c == level.len() - 1 {
        assert(after.drop_last() =~= level.drop_last());
    } else {
        lemma_nones_update(level.drop_last(), c, v);
        assert(after.drop_last() =~= level.drop_last().update(c, Some(v)));
    }
}

/// The names and relationships that the layers are computed from are those
/// of the entities and relationships of the diagram.
proof fn lemma_views(d: &ClassDiagram)
    ensures
        names_of(d@).len() == d.classes@.len(),
        d@.relationships.len() == d.relationships@.len(),
        forall|i: int| 0 <= i < d.classes@.len() ==> #[trigger] names_of(d@)[i] == d.classes@[i].name@,
        forall|q: int|
            0 <= q < d.relationships@.len() ==> #[trigger] d@.relationships[q]
                == d.relationships@[q]@,
{
}

/// Each entity with a layer has its depth as its layer, no more than `d`;
/// each entity without one cannot be reached in `d` steps.
spec fn settled(
    names: Seq<Seq<char>>,
    rels: Seq<RelationshipView>,
    level: Seq<Option<usize>>,
    d: nat,
) -> bool {
    &&& level.len() == names.len()
    &&& forall|i: int|
        0 <= i < names.len() ==> match #[trigger] level[i] {
            Some(k) => k <= d && minimal(names, rels, i, k as nat),
            None => !within(names, rels, i, d),
        }
}

/// None of the first `q` relationships puts entity `i` below an entity of
/// layer `d`.
spec fn unlinked(
    names: Seq<Seq<char>>,
    rels: Seq<RelationshipView>,
    level: Seq<Option<usize>>,
    i: int,
    d: nat,
    q: int,
) -> bool {
    forall|r: int, p: int|
        0 <= r < q && 0 <= p < names.len() && level[p] == Some(d as usize) ==> !#[trigger] links(
            rels[r],
            names[p],
            names[i],
        )
}

/// Where the search stands after it has tried the first `q` relationships on
/// the entities of layer `d`.
spec fn tried(
    names: Seq<Seq<char>>,
    rels: Seq<RelationshipView>,
    level: Seq<Option<usize>>,
    d: nat,
    q: int,
) -> bool {
    &&& level.len() == names.len()
    &&& forall|i: int|
        0 <= i < names.len() ==> match #[trigger] level[i] {
            Some(k) => k <= d + 1 && minimal(names, rels, i, k as nat),
            None => !within(names, rels, i, d) && unlinked(names, rels, level, i, d, q),
        }
}

proof fn lemma_tried_all(
    names: Seq<Seq<char>>,
    rels: Seq<RelationshipView>,
    level: Seq<Option<usize>>,
    d: nat,
    i: int,
)
    requires
        tried(names, rels, level, d, rels.len() as int),
        0 <= i < names.len(),
        level[i] is None,
        d < usize::MAX,
    ensures
        !within(names, rels, i, d + 1),
{
    if within(names, rels, i, d + 1) {
        if is_root(names, rels, i) {
            assert(within(names, rels, i, 0));
            lemma_within_more(names, rels, i, 0, d);
        } else {
            let p = choose|p: int|
                0 <= p < names.len() && within(names, rels, p, d) && #[trigger] edge(
                    rels,
                    names[p],
                    names[i],
                );
            let r = choose|r: int| 0 <= r < rels.len() && links(#[trigger] rels[r], names[p], names[i]);
            match level[p] {
                None => {
                    assert(!within(names, rels, p, d));
                },
                Some(k) => {
                    assert(minimal(names, rels, p, k as nat));
                    if k == d + 1 {
                        assert(!within(names, rels, p, d));
                    } else if k < d {
                        assert(edge(rels, names[p], names[i]));
                        assert(within(names, rels, i, (k + 1) as nat));
                        lemma_within_more(names, rels, i, (k + 1) as nat, d);
                    } else {
                        assert(level[p] == Some(d as usize));
                        assert(unlinked(names, rels, level, i, d, rels.len() as int));
                        assert(!links(rels[r], names[p], names[i]));
                    }
                },
            }
        }
    }
}

/// An entity of a layer below the first stands below an entity of the layer
/// above its own.
proof fn lemma_one_above(
    names: Seq<Seq<char>>,
    rels: Seq<RelationshipView>,
    level: Seq<Option<usize>>,
    d: nat,
    i: int,
    k: nat,
) -> (p: int)
    requires
        settled(names, rels, level, d),
        0 <= i < names.len(),
        level[i] == Some(k as usize),
        k > 0,
        k <= usize::MAX,
    ensures
        0 <= p < names.len(),
        level[p] == Some((k - 1) as usize),
{
    assert(minimal(names, rels, i, k));
    assert(!is_root(names, rels, i)) by {
        if is_root(names, rels, i) {
            assert(within(names, rels, i, 0));
            lemma_within_more(names, rels, i, 0, (k - 1) as nat);
        }
    }
    let p = choose|p: int|
        0 <= p < names.len() && within(names, rels, p, (k - 1) as nat) && #[trigger] edge(
            rels,
            names[p],
            names[i],
        );
    match level[p] {
        None => {
            lemma_within_more(names, rels, p, (k - 1) as nat, d);
        },
        Some(j) => {
            assert(minimal(names, rels, p, j as nat));
            if j > k - 1 {
                lemma_within_more(names, rels, p, (k - 1) as nat, (j - 1) as nat);
            }
            if j < k - 1 {
                assert(within(names, rels, i, (j + 1) as nat));
                lemma_within_more(names, rels, i, (j + 1) as nat, (k - 1) as nat);
            }
        },
    }
    p
}

fn ranks_is_a(kind: RelationType) -> (b: bool)
    ensures
        b == is_a(kind),
{
    match kind {
        RelationType::Inheritance => true,
        RelationType::Realization => true,
        _ => false,
    }
}

fn ranks_owns(kind: RelationType) -> (b: bool)
    ensures
        b == owns(kind),
{
    match kind {
        RelationType::Composition => true,
        RelationType::Aggregation => true,
        _ => false,
    }
}

fn is_layer(e: &Option<usize>, d: usize) -> (b: bool)
    ensures
        b == (*e == Some(d)),
{
    match e {
        Some(k) => *k == d,
        None => false,
    }
}

impl ClassDiagram {
    fn has_parent(&self, i: usize) -> (b: bool)
        requires
            i < self.classes@.len(),
        ensures
            b == derives(self@.relationships, names_of(self@)[i as int]),
    {
        proof {
            lemma_views(self);
        }
        let mut q: usize = 0;
        while q < self.relationships.len()
            invariant
                q <= self.relationships@.len(),
                i < self.classes@.len(),
                forall|r: int|
                    0 <= r < q ==> !(is_a((#[trigger] self@.relationships[r]).rel_type)
                        && self@.relationships[r].from == names_of(self@)[i as int]),
            decreases self.relationships@.len() - q,
        {
            proof {
                lemma_views(self);
            }
            if ranks_is_a(self.relationships[q].rel_type) && self.relationships[q].from
                == self.classes[i].name {
                assert(is_a(self@.relationships[q as int].rel_type) && self@.relationships[q as int].from
                    == names_of(self@)[i as int]);
                return true;
            }
            q += 1;
        }
        false
    }

    fn mark_roots(&self) -> (level: Vec<Option<usize>>)
        ensures
            level@.len() == self.classes@.len(),
            forall|i: int|
                0 <= i < level@.len() ==> #[trigger] level@[i] == if is_root(
                    names_of(self@),
                    self@.relationships,
                    i,
                ) {
                    Some(0usize)
                } else {
                    None
                },
    {
        let ghost names = names_of(self@);
        let ghost rels = self@.relationships;
        let n: usize = self.classes.len();
        let mut level: Vec<Option<usize>> = Vec::new();
        let mut any = false;
        let mut i: usize = 0;
        while i < n
            invariant
                i <= n,
                n == self.classes@.len(),
                names == names_of(self@),
                rels == self@.relationships,
                names.len() == n,
                level@.len() == i,
                any == exists|j: int| 0 <= j < i && !derives(rels, #[trigger] names[j]),
                forall|j: int|
                    0 <= j < i ==> #[trigger] level@[j] == if derives(rels, names[j]) {
                        None
                    } else {
                        Some(0usize)
                    },
            decreases n - i,
        {
            if self.has_parent(i) {
                level.push(None);
            } else {
                level.push(Some(0));
                any = true;
            }
            i += 1;
        }
        if !any && n > 0 {
            level[0] = Some(0);
        }
        level
    }

    fn frontier_has(&self, level: &Vec<Option<usize>>, d: usize, name: &String) -> (r: Option<usize>)
        requires
            level@.len() == self.classes@.len(),
        ensures
            match r {
                Some(p) => p < level@.len() && level@[p as int] == Some(d) && names_of(
                    self@,
                )[p as int] == name@,
                None => forall|p: int|
                    0 <= p < level@.len() && level@[p] == Some(d) ==> #[trigger] names_of(self@)[p]
                        != name@,
            },
    {
        proof {
            lemma_views(self);
        }
        let mut p: usize = 0;
        while p < level.len()
            invariant
                p <= level@.len(),
                level@.len() == self.classes@.len(),
                forall|j: int|
                    0 <= j < p && level@[j] == Some(d) ==> #[trigger] names_of(self@)[j] != name@,
            decreases level@.len() - p,
        {
            proof {
                lemma_views(self);
            }
            if is_layer(&level[p], d) && self.classes[p].name == *name {
                return Some(p);
            }
            p += 1;
        }
        None
    }

    /// Gives the layer below `d` to each entity without a layer that has the
    /// given name.
    fn lower_named(&self, level: &mut Vec<Option<usize>>, d: usize, child: &String) -> (changed:
        bool)
        requires
            old(level)@.len() == self.classes@.len(),
            d < usize::MAX,
        ensures
            final(level)@.len() == old(level)@.len(),
            forall|c: int|
                0 <= c < old(level)@.len() ==> #[trigger] final(level)@[c] == if old(level)@[c]
                    is None && names_of(self@)[c] == child@ {
                    Some((d + 1) as usize)
                } else {
                    old(level)@[c]
                },
            changed == exists|c: int|
                0 <= c < old(level)@.len() && (#[trigger] old(level)@[c]) is None && names_of(
                    self@,
                )[c] == child@,
            nones(final(level)@) <= nones(old(level)@),
            changed ==> nones(final(level)@) < nones(old(level)@),
    {
        let n: usize = level.len();
        let mut changed = false;
        let mut c: usize = 0;
        while c < n
            invariant
                c <= n,
                n == level@.len(),
                n == old(level)@.len(),
                n == self.classes@.len(),
                d < usize::MAX,
                forall|j: int|
                    0 <= j < c ==> #[trigger] level@[j] == if old(level)@[j] is None && names_of(
                        self@,
                    )[j] == child@ {
                        Some((d + 1) as usize)
                    } else {
                        old(level)@[j]
                    },
                forall|j: int| c <= j < n ==> #[trigger] level@[j] == old(level)@[j],
                changed == exists|j: int|
                    0 <= j < c && (#[trigger] old(level)@[j]) is None && names_of(self@)[j]
                        == child@,
                nones(level@) <= nones(old(level)@),
                changed ==> nones(level@) < nones(old(level)@),
            decreases n - c,
        {
            proof {
                lemma_views(self);
            }
            if level[c].is_none() && self.classes[c].name == *child {
                proof {
                    lemma_nones_update(level@, c as int, (d + 1) as usize);
                }
                level[c] = Some(d + 1);
                changed = true;
            }
            c += 1;
        }
        changed
    }

    /// One round of the search: each entity without a layer that a
    /// relationship puts below an entity of layer `d` gets the layer below.
    fn grow(&self, level: &mut Vec<Option<usize>>, d: usize) -> (changed: bool)
        requires
            settled(names_of(self@), self@.relationships, old(level)@, d as nat),
            d + 1 + nones(old(level)@) <= self.classes@.len(),
        ensures
            final(level)@.len() == old(level)@.len(),
            changed ==> settled(names_of(self@), self@.relationships, final(level)@, (d + 1) as nat),
            changed ==> nones(final(level)@) < nones(old(level)@),
            changed ==> exists|i: int|
                0 <= i < final(level)@.len() && #[trigger] final(level)@[i] == Some((d + 1) as usize),
            !changed ==> final(level)@ == old(level)@,
            !changed ==> forall|i: int| #[trigger]
                within(names_of(self@), self@.relationships, i, (d + 1) as nat) ==> within(
                    names_of(self@),
                    self@.relationships,
                    i,
                    d as nat,
                ),
    {
        let ghost names = names_of(self@);
        let ghost rels = self@.relationships;
        let n: usize = self.classes.len();
        let mut changed = false;
        let mut q: usize = 0;
        proof {
            lemma_views(self);
        }
        while q < self.relationships.len()
            invariant
                q <= self.relationships@.len(),
                names == names_of(self@),
                rels == self@.relationships,
                rels.len() == self.relationships@.len(),
                n == self.classes@.len(),
                n == names.len(),
                d + 1 <= n,
                level@.len() == old(level)@.len(),
                tried(names, rels, level@, d as nat, q as int),
                forall|i: int|
                    0 <= i < n && (#[trigger] old(level)@[i]) is Some ==> level@[i] == old(
                        level,
                    )@[i],
                forall|i: int|
                    0 <= i < n && old(level)@[i] is None && (#[trigger] level@[i]) is Some
                        ==> level@[i] == Some((d + 1) as usize),
                changed == exists|i: int|
                    0 <= i < n && old(level)@[i] is None && (#[trigger] level@[i]) is Some,
                nones(level@) <= nones(old(level)@),
                changed ==> nones(level@) < nones(old(level)@),
            decreases self.relationships@.len() - q,
        {
            proof {
                lemma_views(self);
            }
            let r = &self.relationships[q];
            let ghost before = level@;
            let ghost was = changed;
            let ghost rv = rels[q as int];
            let up_down: Option<(&String, &String)> = if ranks_is_a(r.rel_type) {
                Some((&r.to, &r.from))
            } else if ranks_owns(r.rel_type) {
                Some((&r.from, &r.to))
            } else {
                None
            };
            match up_down {
                Some((parent, child)) => {
                    assert(parent@ == upper(rv) && child@ == lower(rv));
                    match self.frontier_has(level, d, parent) {
                        Some(p) => {
                            let hit = self.lower_named(level, d, child);
                            if hit {
                                changed = true;
                            }
                            proof {
                                if exists|i: int|
                                    0 <= i < n && old(level)@[i] is None && (#[trigger] level@[i])
                                        is Some {
                                    let i = choose|i: int|
                                        0 <= i < n && old(level)@[i] is None && (#[trigger] level@[i])
                                            is Some;
                                    if before[i] is Some {
                                        assert(was);
                                    } else {
                                        assert(before[i] is None && names[i] == child@);
                                        assert(hit);
                                    }
                                }
                                if was {
                                    let i = choose|i: int|
                                        0 <= i < n && old(level)@[i] is None && (#[trigger] before[i])
                                            is Some;
                                    assert(level@[i] == before[i]);
                                } else if hit {
                                    let c = choose|c: int|
                                        0 <= c < before.len() && (#[trigger] before[c]) is None
                                            && names[c] == child@;
                                    assert(level@[c] is Some);
                                    assert(old(level)@[c] is None);
                                }
                                assert(minimal(names, rels, p as int, d as nat));
                                assert(links(rv, names[p as int], child@));
                                assert forall|i: int| 0 <= i < n implies match #[trigger] level@[i] {
                                    Some(k) => k <= d + 1 && minimal(names, rels, i, k as nat),
                                    None => !within(names, rels, i, d as nat) && unlinked(
                                        names,
                                        rels,
                                        level@,
                                        i,
                                        d as nat,
                                        q + 1,
                                    ),
                                } by {
                                    if before[i] is None && names[i] == child@ {
                                        assert(links(rels[q as int], names[p as int], names[i]));
                                        assert(edge(rels, names[p as int], names[i]));
                                        assert(within(names, rels, i, (d + 1) as nat));
                                    } else if before[i] is None {
                                        assert(unlinked(names, rels, before, i, d as nat, q as int));
                                        assert forall|rel: int, up: int|
                                            0 <= rel < q + 1 && 0 <= up < names.len() && level@[up]
                                                == Some(d) implies !#[trigger] links(
                                            rels[rel],
                                            names[up],
                                            names[i],
                                        ) by {
                                            assert(before[up] == Some(d));
                                        }
                                    }
                                }
                            }
                        },
                        None => {
                            proof {
                                assert forall|i: int| 0 <= i < n implies match #[trigger] level@[i] {
                                    Some(k) => k <= d + 1 && minimal(names, rels, i, k as nat),
                                    None => !within(names, rels, i, d as nat) && unlinked(
                                        names,
                                        rels,
                                        level@,
                                        i,
                                        d as nat,
                                        q + 1,
                                    ),
                                } by {
                                    if level@[i] is None {
                                        assert(unlinked(names, rels, level@, i, d as nat, q as int));
                                    }
                                }
                            }
                        },
                    }
                },
                None => {
                    proof {
                        assert forall|i: int| 0 <= i < n implies match #[trigger] level@[i] {
                            Some(k) => k <= d + 1 && minimal(names, rels, i, k as nat),
                            None => !within(names, rels, i, d as nat) && unlinked(
                                names,
                                rels,
                                level@,
                                i,
                                d as nat,
                                q + 1,
                            ),
                        } by {
                            if level@[i] is None {
                                assert(unlinked(names, rels, level@, i, d as nat, q as int));
                            }
                        }
                    }
                },
            }
            q += 1;
        }
        proof {
            assert forall|i: int| 0 <= i < n && level@[i] is None implies !within(
                names,
                rels,
                i,
                (d + 1) as nat,
            ) by {
                lemma_tried_all(names, rels, level@, d as nat, i);
            }
            if changed {
                let i = choose|i: int|
                    0 <= i < n && old(level)@[i] is None && (#[trigger] level@[i]) is Some;
                assert(level@[i] == Some((d + 1) as usize));
            } else {
                assert(level@ =~= old(level)@);
                assert forall|i: int| #[trigger]
                    within(names, rels, i, (d + 1) as nat) implies within(
                    names,
                    rels,
                    i,
                    d as nat,
                ) by {
                    match level@[i] {
                        Some(k) => {
                            assert(old(level)@[i] is Some);
                            lemma_within_more(names, rels, i, k as nat, d as nat);
                        },
                        None => {},
                    }
                }
            }
        }
        changed
    }

    /// The layer of each entity.
    pub fn assign_layers(&self) -> (layers: Vec<usize>)
        ensures
            layers@.len() == self.classes@.len(),
            forall|i: int|
                0 <= i < layers@.len() ==> #[trigger] layers@[i] == layer(
                    names_of(self@),
                    self@.relationships,
                    i,
                ),
            forall|i: int| 0 <= i < layers@.len() ==> #[trigger] layers@[i] < layers@.len(),
            forall|i: int|
                0 <= i < layers@.len() && #[trigger] layers@[i] > 0 ==> exists|j: int|
                    0 <= j < layers@.len() && #[trigger] layers@[j] + 1 == layers@[i],
    {
        let ghost names = names_of(self@);
        let ghost rels = self@.relationships;
        let n: usize = self.classes.len();
        let mut layers: Vec<usize> = Vec::new();
        if n == 0 {
            return layers;
        }
        let mut level = self.mark_roots();
        let mut d: usize = 0;
        let ghost mut top: int = 0;
        proof {
            lemma_views(self);
            if any_root(names, rels) {
                top = choose|i: int| 0 <= i < names.len() && !derives(rels, #[trigger] names[i]);
            }
            assert(is_root(names, rels, top));
            assert(level@[top] == Some(0usize));
            lemma_nones_some(level@, top);
        }
        let mut done = false;
        while !done
            invariant
                names == names_of(self@),
                rels == self@.relationships,
                n == self.classes@.len(),
                n == names.len(),
                settled(names, rels, level@, d as nat),
                d + 1 + nones(level@) <= n,
                0 <= top < n,
                level@[top] == Some(d),
                done ==> forall|i: int| #[trigger]
                    within(names, rels, i, (d + 1) as nat) ==> within(names, rels, i, d as nat),
            decreases
                    nones(level@) + if done {
                        0nat
                    } else {
                        1nat
                    },
        {
            let changed = self.grow(&mut level, d);
            if changed {
                proof {
                    top = choose|i: int|
                        0 <= i < level@.len() && #[trigger] level@[i] == Some((d + 1) as usize);
                }
                d = d + 1;
            } else {
                done = true;
            }
        }
        proof {
            assert(minimal(names, rels, top, d as nat));
            assert forall|i: int, k: nat|
                0 <= i < names.len() && #[trigger] minimal(names, rels, i, k) implies k <= d by {
                lemma_closed(names, rels, d as nat, i, k);
                match level@[i] {
                    Some(j) => {
                        lemma_minimal_unique(names, rels, i, k, j as nat);
                    },
                    None => {},
                }
            }
            lemma_deepest(names, rels, d as nat);
        }
        let mut i: usize = 0;
        while i < n
            invariant
                i <= n,
                names == names_of(self@),
                rels == self@.relationships,
                n == self.classes@.len(),
                n == names.len(),
                layers@.len() == i,
                settled(names, rels, level@, d as nat),
                d + 1 + nones(level@) <= n,
                deepest(names, rels) == d,
                forall|j: int| #[trigger]
                    within(names, rels, j, (d + 1) as nat) ==> within(names, rels, j, d as nat),
                forall|j: int| 0 <= j < i ==> #[trigger] layers@[j] == layer(names, rels, j),
                forall|j: int| 0 <= j < i ==> #[trigger] layers@[j] < n,
                forall|j: int|
                    0 <= j < i ==> #[trigger] layers@[j] == match level@[j] {
                        Some(k) => k,
                        None => (d + 1) as usize,
                    },
            decreases n - i,
        {
            match level[i] {
                Some(k) => {
                    proof {
                        lemma_depth(names, rels, i as int, k as nat);
                    }
                    layers.push(k);
                },
                None => {
                    proof {
                        lemma_nones_none(level@, i as int);
                        assert forall|k: nat| !within(names, rels, i as int, k) by {
                            if within(names, rels, i as int, k) {
                                lemma_closed(names, rels, d as nat, i as int, k);
                            }
                        }
                    }
                    layers.push(d + 1);
                },
            }
            i += 1;
        }
        proof {
            assert forall|i: int| 0 <= i < layers@.len() && #[trigger] layers@[i] > 0 implies exists|
                j: int,
            | 0 <= j < layers@.len() && #[trigger] layers@[j] + 1 == layers@[i] by {
                match level@[i] {
                    Some(k) => {
                        let p = lemma_one_above(names, rels, level@, d as nat, i, k as nat);
                        assert(layers@[p] + 1 == layers@[i]);
                    },
                    None => {
                        assert(layers@[top] + 1 == layers@[i]);
                    },
                }
            }
        }
        layers
    }
}

} // verus!
