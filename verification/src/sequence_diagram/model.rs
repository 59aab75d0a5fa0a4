//! The model of a sequence diagram.

use crate::class_diagram::model::opt_string;
use crate::number::Num;
use vstd::prelude::*;

verus! {

/// How the arrow of a message is drawn.
#[derive(Debug, Clone, Copy, PartialEq, Eq, Structural)]
pub enum ArrowStyle {
    Solid,
    Dashed,
    SolidOpen,
    DashedOpen,
}

/// A participant, with the rank that orders it among the others.
#[derive(Debug, Clone)]
pub struct Participant {
    pub name: String,
    pub order: i32,
    pub x: Num,
    pub width: Num,
}

/// What a participant holds.
pub struct ParticipantView {
    pub name: Seq<char>,
    pub order: int,
    pub x: Num,
    pub width: Num,
}

impl View for Participant {
    type V = ParticipantView;

    open spec fn view(&self) -> ParticipantView {
        ParticipantView { name: self.name@, order: self.order as int, x: self.x, width: self.width }
    }
}

/// A message from one participant to another, each named.
#[derive(Debug, Clone)]
pub struct Message {
    pub from: String,
    pub to: String,
    pub text: String,
    pub style: ArrowStyle,
}

/// What a message holds.
pub struct MessageView {
    pub from: Seq<char>,
    pub to: Seq<char>,
    pub text: Seq<char>,
    pub style: ArrowStyle,
}

impl View for Message {
    type V = MessageView;

    open spec fn view(&self) -> MessageView {
        MessageView { from: self.from@, to: self.to@, text: self.text@, style: self.style }
    }
}

/// One step of a sequence diagram.
#[derive(Debug, Clone)]
pub enum Element {
    Message(Message),
    Divider(String),
    AltStart(String),
    ElseBranch(Option<String>),
    AltEnd,
    Note { on: String, text: String },
}

/// What an element holds.
pub enum ElementView {
    Message(MessageView),
    Divider(Seq<char>),
    AltStart(Seq<char>),
    ElseBranch(Option<Seq<char>>),
    AltEnd,
    Note { on: Seq<char>, text: Seq<char> },
}

impl View for Element {
    type V = ElementView;

    open spec fn view(&self) -> ElementView {
        match self {
            Element::Message(m) => ElementView::Message(m@),
            Element::Divider(t) => ElementView::Divider(t@),
            Element::AltStart(c) => ElementView::AltStart(c@),
            Element::ElseBranch(c) => ElementView::ElseBranch(opt_string(*c)),
            Element::AltEnd => ElementView::AltEnd,
            Element::Note { on, text } => ElementView::Note { on: on@, text: text@ },
        }
    }
}

/// What a list of participants holds.
pub open spec fn participant_views(ps: Seq<Participant>) -> Seq<ParticipantView> {
    ps.map_values(|p: Participant| p@)
}

/// What a list of elements holds.
pub open spec fn element_views(es: Seq<Element>) -> Seq<ElementView> {
    es.map_values(|e: Element| e@)
}

/// A sequence diagram: its participants from left to right, and its
/// elements from top to bottom.
#[derive(Debug, Clone)]
pub struct SequenceDiagram {
    pub participants: Vec<Participant>,
    pub elements: Vec<Element>,
}

/// What a sequence diagram holds.
pub struct SequenceDiagramView {
    pub participants: Seq<ParticipantView>,
    pub elements: Seq<ElementView>,
}

impl View for SequenceDiagram {
    type V = SequenceDiagramView;

    open spec fn view(&self) -> SequenceDiagramView {
        SequenceDiagramView {
            participants: participant_views(self.participants@),
            elements: element_views(self.elements@),
        }
    }
}

/// A participant has the given name.
pub open spec fn named(ps: Seq<ParticipantView>, name: Seq<char>) -> bool {
    exists|i: int| 0 <= i < ps.len() && (#[trigger] ps[i]).name == name
}

/// No two participants have the same name.
pub open spec fn unique(ps: Seq<ParticipantView>) -> bool {
    forall|i: int, j: int| 0 <= i < j < ps.len() ==> (#[trigger] ps[i]).name != (#[trigger] ps[j]).name
}

/// The sender and the receiver of each message are participants.
pub open spec fn all_known(ps: Seq<ParticipantView>, es: Seq<ElementView>) -> bool {
    forall|k: int|
        0 <= k < es.len() ==> ((#[trigger] es[k]) matches ElementView::Message(m) ==> named(
            ps,
            m.from,
        ) && named(ps, m.to))
}

impl SequenceDiagramView {
    /// The diagram is well formed: no two participants share a name, and the
    /// sender and the receiver of each message are participants.
    pub open spec fn wf(self) -> bool {
        unique(self.participants) && all_known(self.participants, self.elements)
    }
}

/// The first index at or after `i` of a participant with the given name.
pub open spec fn seat_from(ps: Seq<ParticipantView>, name: Seq<char>, i: int) -> Option<int>
    decreases ps.len() - i,
{
    if i < 0 || i >= ps.len() {
        None
    } else if ps[i].name == name {
        Some(i)
    } else {
        seat_from(ps, name, i + 1)
    }
}

/// The index of the first participant with the given name.
pub open spec fn seat(ps: Seq<ParticipantView>, name: Seq<char>) -> Option<int> {
    seat_from(ps, name, 0)
}

/// `seat_from` finds the first participant of that name at or after `i`.
pub proof fn lemma_seat_from(ps: Seq<ParticipantView>, name: Seq<char>, i: int)
    requires
        0 <= i,
    ensures
        match seat_from(ps, name, i) {
            Some(k) => i <= k < ps.len() && ps[k].name == name && forall|j: int|
                i <= j < k ==> (#[trigger] ps[j]).name != name,
            None => forall|j: int| i <= j < ps.len() ==> (#[trigger] ps[j]).name != name,
        },
    decreases ps.len() - i,
{
    if i < ps.len() && ps[i].name != name {
        lemma_seat_from(ps, name, i + 1);
    }
}

/// The index of the first participant with the given name.
pub fn find_participant(ps: &Vec<Participant>, name: &str) -> (r: Option<usize>)
    ensures
        match r {
            Some(i) => seat(participant_views(ps@), name@) == Some(i as int) && i < ps@.len(),
            None => seat(participant_views(ps@), name@) is None,
        },
{
    let wanted = crate::text::chars_of(name);
    let mut i: usize = 0;
    while i < ps.len()
        invariant
            i <= ps@.len(),
            wanted@ == name@,
            seat_from(participant_views(ps@), name@, i as int) == seat(
                participant_views(ps@),
                name@,
            ),
        decreases ps@.len() - i,
    {
        if crate::text::equals(wanted.as_slice(), ps[i].name.as_str()) {
            return Some(i);
        }
        i += 1;
    }
    None
}

} // verus!
