//! The layout of sequence diagrams: the participants stand side by side,
//! each in a lane of its own, and each element takes a fixed share of the
//! height.

use crate::number::{num, Num};
use crate::sequence_diagram::model::{
    Element, ElementView, Participant, ParticipantView, SequenceDiagram, SequenceDiagramView,
};
use crate::style::{DiagramStyle, Measures};
use vstd::prelude::*;

verus! {

/// The height of the box of a participant, in thousandths.
pub const PARTICIPANT_HEIGHT: i64 = 35_000;

/// The padding on each side of the name of a participant, in thousandths.
pub const PARTICIPANT_PADDING: i64 = 20_000;

/// The least width of the box of a participant, in thousandths.
pub const PARTICIPANT_MIN_WIDTH: i64 = 80_000;

/// The least width of the lane of a participant, in thousandths.
pub const LANE_SPACING: i64 = 150_000;

/// The height that an element takes, in thousandths.
pub const MESSAGE_SPACING: i64 = 40_000;

/// The width of a drawing without participants, in thousandths.
pub const EMPTY_WIDTH: i64 = 200_000;

/// The width of the box of a participant: that of its name with the padding
/// on both sides, and at least the least width.
pub open spec fn box_width(p: ParticipantView, style: Measures) -> Num {
    style.char_width.product(p.name.len() as int).sum(
        num(PARTICIPANT_PADDING as int).doubled(),
    ).greater(num(PARTICIPANT_MIN_WIDTH as int))
}

/// Where the lane of participant `i` begins: the margin, and for each
/// participant before it the width of its lane, which is that of its box and
/// at least the least lane.
pub open spec fn lane_start(ps: Seq<ParticipantView>, i: int, style: Measures) -> Num
    decreases i,
{
    if i <= 0 {
        style.margin
    } else {
        lane_start(ps, i - 1, style).sum(
            box_width(ps[i - 1], style).greater(num(LANE_SPACING as int)),
        )
    }
}

/// Participant `i` in its place: its box begins where its lane begins, and
/// its position is the middle of its box.
pub open spec fn placed(ps: Seq<ParticipantView>, i: int, style: Measures) -> ParticipantView {
    ParticipantView {
        x: lane_start(ps, i, style).sum(box_width(ps[i], style).halved()),
        width: box_width(ps[i], style),
        ..ps[i]
    }
}

/// The diagram laid out: each participant with its width and its place.
pub open spec fn laid_out(d: SequenceDiagramView, style: Measures) -> SequenceDiagramView {
    SequenceDiagramView {
        participants: Seq::new(d.participants.len(), |i: int| placed(d.participants, i, style)),
        elements: d.elements,
    }
}

/// An element takes a share of the height; a note takes none.
pub open spec fn counts(e: ElementView) -> bool {
    !(e is Note)
}

/// How many of the elements take a share of the height.
pub open spec fn counted(es: Seq<ElementView>) -> nat
    decreases es.len(),
{
    if es.len() == 0 {
        0
    } else {
        counted(es.drop_last()) + if counts(es.last()) {
            1nat
        } else {
            0nat
        }
    }
}

/// The width of the drawing: the right edge of the last participant and the
/// margin.
pub open spec fn total_width(ps: Seq<ParticipantView>, style: Measures) -> Num {
    if ps.len() == 0 {
        num(EMPTY_WIDTH as int)
    } else {
        ps.last().x.sum(ps.last().width.halved()).sum(style.margin)
    }
}

/// The height of the drawing: the margin and the boxes of the participants
/// at the top and at the bottom, a share for each element that takes one,
/// and one share more.
pub open spec fn total_height(es: Seq<ElementView>, style: Measures) -> Num {
    style.margin.doubled().sum(num(PARTICIPANT_HEIGHT as int).doubled()).sum(
        num(MESSAGE_SPACING as int).product(counted(es) as int),
    ).sum(num(MESSAGE_SPACING as int))
}

// ---------------------------------------------------------------------------
// What holds of every layout
// ---------------------------------------------------------------------------

/// Two diagrams are the same but for the widths and places of their
/// participants.
pub open spec fn same_contents(a: SequenceDiagramView, b: SequenceDiagramView) -> bool {
    &&& a.elements == b.elements
    &&& a.participants.len() == b.participants.len()
    &&& forall|i: int|
        0 <= i < a.participants.len() ==> (#[trigger] a.participants[i]).name
            == b.participants[i].name && a.participants[i].order == b.participants[i].order
}

proof fn lemma_lane_start(a: Seq<ParticipantView>, b: Seq<ParticipantView>, i: int, style: Measures)
    requires
        a.len() == b.len(),
        0 <= i <= a.len(),
        forall|j: int| 0 <= j < a.len() ==> (#[trigger] a[j]).name == b[j].name,
    ensures
        lane_start(a, i, style) == lane_start(b, i, style),
    decreases i,
{
    if i > 0 {
        lemma_lane_start(a, b, i - 1, style);
        assert(a[i - 1].name == b[i - 1].name);
    }
}

/// The layout adds no participant and takes none away: it gives each
/// participant a width and a place and leaves its name and rank, and the
/// elements, as they were.
pub proof fn layout_keeps_contents(d: SequenceDiagramView, style: Measures)
    ensures
        same_contents(laid_out(d, style), d),
{
}

/// The layout reads nothing but the contents of the diagram: the widths and
/// places that the participants had before do not matter.
pub proof fn layout_reads_contents_only(
    a: SequenceDiagramView,
    b: SequenceDiagramView,
    style: Measures,
)
    requires
        same_contents(a, b),
    ensures
        laid_out(a, style) == laid_out(b, style),
{
    assert forall|i: int| 0 <= i < a.participants.len() implies placed(a.participants, i, style)
        == placed(b.participants, i, style) by {
        lemma_lane_start(a.participants, b.participants, i, style);
        assert(a.participants[i].name == b.participants[i].name);
    }
    assert(laid_out(a, style).participants =~= laid_out(b, style).participants);
}

/// Laying a diagram out twice gives what laying it out once gives.
pub proof fn layout_is_idempotent(d: SequenceDiagramView, style: Measures)
    ensures
        laid_out(laid_out(d, style), style) == laid_out(d, style),
{
    layout_keeps_contents(d, style);
    layout_reads_contents_only(laid_out(d, style), d, style);
}

fn measure_box(p: &Participant, style: &DiagramStyle) -> (w: Num)
    ensures
        w == box_width(p@, style.measures()),
{
    style.char_width.times(p.name.as_str().unicode_len()).plus(
        Num::from_milli(PARTICIPANT_PADDING).twice(),
    ).max(Num::from_milli(PARTICIPANT_MIN_WIDTH))
}

impl SequenceDiagram {
    /// Lays the diagram out: each participant gets its width and its place.
    pub fn layout(&mut self, style: &DiagramStyle)
        ensures
            final(self)@ == laid_out(old(self)@, style.measures()),
    {
        let n: usize = self.participants.len();
        let ghost start = self@;
        let mut lane = style.margin;
        let mut i: usize = 0;
        while i < n
            invariant
                i <= n,
                n == self.participants@.len(),
                n == start.participants.len(),
                start == old(self)@,
                self@.elements == start.elements,
                lane == lane_start(start.participants, i as int, style.measures()),
                forall|j: int|
                    0 <= j < i ==> (#[trigger] self.participants@[j])@ == placed(
                        start.participants,
                        j,
                        style.measures(),
                    ),
                forall|j: int|
                    i <= j < n ==> (#[trigger] self.participants@[j])@ == start.participants[j],
            decreases n - i,
        {
            let w = measure_box(&self.participants[i], style);
            self.participants[i].width = w;
            self.participants[i].x = lane.plus(w.half());
            lane = lane.plus(w.max(Num::from_milli(LANE_SPACING)));
            i += 1;
        }
        assert(self@.participants =~= laid_out(start, style.measures()).participants);
    }

    /// The size of the drawing.
    pub fn calculate_dimensions(&self, style: &DiagramStyle) -> (r: (Num, Num))
        ensures
            r.0 == total_width(self@.participants, style.measures()),
            r.1 == total_height(self@.elements, style.measures()),
    {
        let n: usize = self.participants.len();
        let width = if n > 0 {
            let last = &self.participants[n - 1];
            assert(self@.participants.last() == last@);
            last.x.plus(last.width.half()).plus(style.margin)
        } else {
            Num::from_milli(EMPTY_WIDTH)
        };
        let mut count: usize = 0;
        let mut i: usize = 0;
        assert(self@.elements.take(0) =~= Seq::<ElementView>::empty());
        while i < self.elements.len()
            invariant
                i <= self.elements@.len(),
                count == counted(self@.elements.take(i as int)),
                count <= i,
            decreases self.elements@.len() - i,
        {
            proof {
                assert(self@.elements.take(i + 1).drop_last() =~= self@.elements.take(i as int));
                assert(self@.elements.take(i + 1).last() == self.elements@[i as int]@);
            }
            match &self.elements[i] {
                Element::Note { .. } => {},
                _ => {
                    count += 1;
                },
            }
            i += 1;
        }
        assert(self@.elements.take(self@.elements.len() as int) =~= self@.elements);
        let share = Num::from_milli(MESSAGE_SPACING);
        let height = style.margin.twice().plus(Num::from_milli(PARTICIPANT_HEIGHT).twice()).plus(
            share.times(count),
        ).plus(share);
        (width, height)
    }
}

} // verus!
