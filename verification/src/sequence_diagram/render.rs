//! The drawing of sequence diagrams: the style sheet and the definitions
//! first, then the lifelines and the participants, then the elements from
//! top to bottom.

use crate::class_diagram::model::opt_string;
use crate::class_diagram::render::{lemma_join, lemma_join_empty};
use crate::css::{custom_css, extract_custom_css};
use crate::number::{num, Num};
use crate::sequence_diagram::layout::{
    laid_out, total_height, total_width, MESSAGE_SPACING, PARTICIPANT_HEIGHT,
};
use crate::sequence_diagram::model::{
    find_participant, participant_views, seat, ArrowStyle, Element, ElementView, Message,
    MessageView, Participant, ParticipantView, SequenceDiagram,
};
use crate::sequence_diagram::parser::Parser;
use crate::style::{DiagramStyle, Measures};
use crate::svg::{
    line_markup, opening, opt_text, polygon_markup, polyline_markup, rect_markup, text_markup,
    SvgBuilder,
};
use vstd::prelude::*;

verus! {

/// The heads of the arrows.
pub const DEFS: &'static str = "<defs>
<marker id=\"seq-arrow\" markerWidth=\"10\" markerHeight=\"7\" refX=\"9\" refY=\"3.5\" orient=\"auto\">
<polygon points=\"0 0, 10 3.5, 0 7\" class=\"arrow-head\"/>
</marker>
<marker id=\"seq-arrow-open\" markerWidth=\"10\" markerHeight=\"7\" refX=\"9\" refY=\"3.5\" orient=\"auto\">
<polyline points=\"0 0, 10 3.5, 0 7\" class=\"arrow-head-open\"/>
</marker>
</defs>";

// ---------------------------------------------------------------------------
// Participants
// ---------------------------------------------------------------------------

/// How far below the middle of its box the name of a participant is
/// written.
pub const NAME_DROP: i64 = 4_000;

/// The height at which the boxes at the top begin.
pub open spec fn top_of(style: Measures) -> Num {
    style.margin
}

/// The height at which the boxes at the bottom begin.
pub open spec fn bottom_of(height: Num, style: Measures) -> Num {
    height.difference(style.margin).difference(num(PARTICIPANT_HEIGHT as int))
}

/// The lifeline of a participant, from its box at the top to its box at the
/// bottom.
pub open spec fn lifeline_markup(p: ParticipantView, top: Num, bottom: Num) -> Seq<char> {
    line_markup(p.x@, top.sum(num(PARTICIPANT_HEIGHT as int))@, p.x@, bottom@, "lifeline"@)
}

/// The lifelines of the participants.
pub open spec fn lifelines_markup(ps: Seq<ParticipantView>, top: Num, bottom: Num) -> Seq<char>
    decreases ps.len(),
{
    if ps.len() == 0 {
        Seq::empty()
    } else {
        lifelines_markup(ps.drop_last(), top, bottom) + lifeline_markup(ps.last(), top, bottom)
    }
}

/// The box of a participant, of the given height, at the height `y`, with
/// its name.
pub open spec fn participant_box(p: ParticipantView, y: Num, height: Num) -> Seq<char> {
    rect_markup(p.x.difference(p.width.halved())@, y@, p.width@, height@, "participant"@)
        + text_markup(
        p.x@,
        y.sum(height.halved()).sum(num(NAME_DROP as int))@,
        p.name,
        "participant-text"@,
    )
}

/// The boxes of the participants: for each its box at the top and its box at
/// the bottom.
pub open spec fn boxes_markup(ps: Seq<ParticipantView>, top: Num, bottom: Num) -> Seq<char>
    decreases ps.len(),
{
    if ps.len() == 0 {
        Seq::empty()
    } else {
        boxes_markup(ps.drop_last(), top, bottom) + participant_box(
            ps.last(),
            top,
            num(PARTICIPANT_HEIGHT as int),
        ) + participant_box(ps.last(), bottom, num(PARTICIPANT_HEIGHT as int))
    }
}

/// Draws the box of a participant at the height `y`.
pub fn draw_participant_box(
    svg: &mut SvgBuilder,
    p: &Participant,
    y: Num,
    height: Num,
    _style: &DiagramStyle,
)
    ensures
        final(svg).markup() == old(svg).markup() + participant_box(p@, y, height),
        final(svg).props() == old(svg).props(),
{
    let x = p.x.minus(p.width.half());
    svg.rect_class(x, y, p.width, height, "participant");
    svg.text_class(
        p.x,
        y.plus(height.half()).plus(Num::from_milli(NAME_DROP)),
        p.name.as_str(),
        "participant-text",
    );
    proof {
        lemma_join(
            old(svg).markup(),
            rect_markup(x@, y@, p.width@, height@, "participant"@),
            text_markup(
                p.x@,
                y.sum(height.halved()).sum(num(NAME_DROP as int))@,
                p@.name,
                "participant-text"@,
            ),
        );
    }
}

// ---------------------------------------------------------------------------
// Messages and dividers
// ---------------------------------------------------------------------------

/// The arrow of this style is dashed.
pub open spec fn dashed(style: ArrowStyle) -> bool {
    style == ArrowStyle::Dashed || style == ArrowStyle::DashedOpen
}

/// The style category of the line of a message.
pub open spec fn message_class(style: ArrowStyle) -> Seq<char> {
    if dashed(style) {
        "message message-dashed"@
    } else {
        "message"@
    }
}

/// The head of the arrow of a message.
pub open spec fn arrow_head(style: ArrowStyle) -> Seq<char> {
    if style == ArrowStyle::Solid || style == ArrowStyle::Dashed {
        "url(#seq-arrow)"@
    } else {
        "url(#seq-arrow-open)"@
    }
}

/// How far the loop of a message to oneself reaches to the right.
pub const LOOP_WIDTH: i64 = 30_000;

/// How far the loop of a message to oneself reaches down.
pub const LOOP_HEIGHT: i64 = 20_000;

/// The path of a message of a participant at `x` to itself, from the height
/// `y`.
pub open spec fn loop_points(x: Num, y: Num) -> Seq<(Num, Num)> {
    seq![
        (x, y),
        (x.sum(num(LOOP_WIDTH as int)), y),
        (x.sum(num(LOOP_WIDTH as int)), y.sum(num(LOOP_HEIGHT as int))),
        (x, y.sum(num(LOOP_HEIGHT as int))),
    ]
}

/// The drawing of a message at the height `y`: an arrow from the lifeline of
/// the sender to that of the receiver with the text above its middle, or a
/// loop with the text beside it where the two are one. Nothing where the
/// sender or the receiver is no participant.
pub open spec fn message_markup(ps: Seq<ParticipantView>, m: MessageView, y: Num) -> Seq<char> {
    match (seat(ps, m.from), seat(ps, m.to)) {
        (Some(a), Some(b)) => if m.from == m.to {
            polyline_markup(loop_points(ps[a].x, y), message_class(m.style), arrow_head(m.style))
                + text_markup(
                ps[a].x.sum(num(LOOP_WIDTH as int)).sum(num(5_000))@,
                y.sum(num(14_000))@,
                m.text,
                "message-text"@,
            )
        } else {
            polyline_markup(
                seq![(ps[a].x, y), (ps[b].x, y)],
                message_class(m.style),
                arrow_head(m.style),
            ) + text_markup(
                ps[a].x.sum(ps[b].x).halved()@,
                y.difference(num(5_000))@,
                m.text,
                "message-text"@,
            )
        },
        _ => Seq::empty(),
    }
}

fn arrow_look(style: ArrowStyle) -> (r: (&'static str, &'static str))
    ensures
        r.0@ == message_class(style),
        r.1@ == arrow_head(style),
{
    match style {
        ArrowStyle::Solid => ("message", "url(#seq-arrow)"),
        ArrowStyle::Dashed => ("message message-dashed", "url(#seq-arrow)"),
        ArrowStyle::SolidOpen => ("message", "url(#seq-arrow-open)"),
        ArrowStyle::DashedOpen => ("message message-dashed", "url(#seq-arrow-open)"),
    }
}

/// Draws a message at the height `y`.
pub fn draw_message(
    svg: &mut SvgBuilder,
    participants: &Vec<Participant>,
    msg: &Message,
    y: Num,
    _style: &DiagramStyle,
)
    ensures
        final(svg).markup() == old(svg).markup() + message_markup(
            participant_views(participants@),
            msg@,
            y,
        ),
        final(svg).props() == old(svg).props(),
{
    let from = find_participant(participants, msg.from.as_str());
    let to = find_participant(participants, msg.to.as_str());
    match (from, to) {
        (Some(a), Some(b)) => {
            let (class, marker) = arrow_look(msg.style);
            let x1 = participants[a].x;
            let x2 = participants[b].x;
            if msg.from == msg.to {
                let right = x1.plus(Num::from_milli(LOOP_WIDTH));
                let low = y.plus(Num::from_milli(LOOP_HEIGHT));
                let mut points: Vec<(Num, Num)> = Vec::new();
                points.push((x1, y));
                points.push((right, y));
                points.push((right, low));
                points.push((x1, low));
                assert(points@ =~= loop_points(x1, y));
                svg.polyline_class(points.as_slice(), class, marker);
                svg.text_class(
                    right.plus(Num::from_milli(5_000)),
                    y.plus(Num::from_milli(14_000)),
                    msg.text.as_str(),
                    "message-text",
                );
                proof {
                    lemma_join(
                        old(svg).markup(),
                        polyline_markup(loop_points(x1, y), class@, marker@),
                        text_markup(
                            right.sum(num(5_000))@,
                            y.sum(num(14_000))@,
                            msg@.text,
                            "message-text"@,
                        ),
                    );
                }
            } else {
                let mut points: Vec<(Num, Num)> = Vec::new();
                points.push((x1, y));
                points.push((x2, y));
                assert(points@ =~= seq![(x1, y), (x2, y)]);
                svg.polyline_class(points.as_slice(), class, marker);
                svg.text_class(
                    x1.plus(x2).half(),
                    y.minus(Num::from_milli(5_000)),
                    msg.text.as_str(),
                    "message-text",
                );
                proof {
                    lemma_join(
                        old(svg).markup(),
                        polyline_markup(seq![(x1, y), (x2, y)], class@, marker@),
                        text_markup(
                            x1.sum(x2).halved()@,
                            y.difference(num(5_000))@,
                            msg@.text,
                            "message-text"@,
                        ),
                    );
                }
            }
        },
        _ => {
            proof {
                lemma_join_empty(svg.markup());
            }
        },
    }
}

/// The width of the box of a divider with a text of `len` characters.
pub open spec fn divider_width(len: int, style: Measures) -> Num {
    style.char_width.product(len).sum(num(20_000))
}

/// The drawing of a divider at the height `y`: a line from margin to margin,
/// and in the middle a box with the text.
pub open spec fn divider_markup(width: Num, y: Num, text: Seq<char>, style: Measures) -> Seq<
    char,
> {
    line_markup(style.margin@, y@, width.difference(style.margin)@, y@, "divider-line"@)
        + rect_markup(
        width.difference(divider_width(text.len() as int, style)).halved()@,
        y.difference(num(10_000))@,
        divider_width(text.len() as int, style)@,
        20_000,
        "divider-box"@,
    ) + text_markup(width.halved()@, y.sum(num(4_000))@, text, "divider-text"@)
}

/// Draws a divider at the height `y`.
pub fn draw_divider(svg: &mut SvgBuilder, width: Num, y: Num, text: &str, style: &DiagramStyle)
    ensures
        final(svg).markup() == old(svg).markup() + divider_markup(width, y, text@, style.measures()),
        final(svg).props() == old(svg).props(),
{
    let left = style.margin;
    let right = width.minus(style.margin);
    svg.line_class(left, y, right, y, "divider-line");
    let text_width = style.char_width.times(text.unicode_len()).plus(Num::from_milli(20_000));
    let box_x = width.minus(text_width).half();
    svg.rect_class(
        box_x,
        y.minus(Num::from_milli(10_000)),
        text_width,
        Num::from_milli(20_000),
        "divider-box",
    );
    svg.text_class(width.half(), y.plus(Num::from_milli(4_000)), text, "divider-text");
    proof {
        let a = line_markup(left@, y@, right@, y@, "divider-line"@);
        let b = rect_markup(
            box_x@,
            y.difference(num(10_000))@,
            text_width@,
            20_000,
            "divider-box"@,
        );
        let c = text_markup(width.halved()@, y.sum(num(4_000))@, text@, "divider-text"@);
        lemma_join(old(svg).markup(), a, b);
        lemma_join(old(svg).markup(), a + b, c);
    }
}

// ---------------------------------------------------------------------------
// Alt blocks
// ---------------------------------------------------------------------------

/// A block that was opened and not yet closed: the height at which it
/// begins, its left edge and its right edge.
pub struct OpenBlock {
    pub top: Num,
    pub left: Num,
    pub right: Num,
}

/// The left edge of a block: a little to the left of the first participant,
/// or the margin where there is none.
pub open spec fn block_left(ps: Seq<ParticipantView>, style: Measures) -> Num {
    if ps.len() == 0 {
        style.margin
    } else {
        ps[0].x.difference(ps[0].width.halved()).difference(num(10_000))
    }
}

/// The right edge of a block: a little to the right of the last participant.
pub open spec fn block_right(ps: Seq<ParticipantView>) -> Num {
    if ps.len() == 0 {
        num(200_000)
    } else {
        ps.last().x.sum(ps.last().width.halved()).sum(num(10_000))
    }
}

/// The left and the right edge of the blocks of a diagram.
pub fn get_diagram_bounds(participants: &Vec<Participant>, style: &DiagramStyle) -> (r: (Num, Num))
    ensures
        r.0 == block_left(participant_views(participants@), style.measures()),
        r.1 == block_right(participant_views(participants@)),
{
    let n: usize = participants.len();
    if n == 0 {
        (style.margin, Num::from_milli(200_000))
    } else {
        let first = &participants[0];
        let last = &participants[n - 1];
        assert(participant_views(participants@).last() == last@);
        (
            first.x.minus(first.width.half()).minus(Num::from_milli(10_000)),
            last.x.plus(last.width.half()).plus(Num::from_milli(10_000)),
        )
    }
}

/// A condition in square brackets.
pub open spec fn bracketed(c: Seq<char>) -> Seq<char> {
    "["@ + c + "]"@
}

/// The condition of a block, written at its left edge below the height `y`.
pub open spec fn condition_markup(left: Num, y: Num, c: Seq<char>, class: Seq<char>) -> Seq<char> {
    text_markup(left.sum(num(5_000))@, y.sum(num(15_000))@, bracketed(c), class)
}

/// The drawing of an `else` inside a block: a line across the block at the
/// height `y`, and the condition where there is one.
pub open spec fn else_markup(b: OpenBlock, y: Num, c: Option<Seq<char>>) -> Seq<char> {
    line_markup(b.left@, y@, b.right@, y@, "alt-divider"@) + match c {
        Some(c) => condition_markup(b.left, y, c, "alt-condition-text diagram-text"@),
        None => Seq::empty(),
    }
}

/// The corner points of the tab that labels a block.
pub open spec fn tab_points(b: OpenBlock) -> Seq<(Num, Num)> {
    seq![
        (b.left, b.top),
        (b.left.sum(num(30_000)), b.top),
        (b.left.sum(num(40_000)), b.top.sum(num(15_000))),
        (b.left, b.top.sum(num(15_000))),
    ]
}

/// The drawing of a block that ends at the height `y`: its frame, and its
/// tab with the label.
pub open spec fn block_markup(b: OpenBlock, y: Num) -> Seq<char> {
    rect_markup(b.left@, b.top@, b.right.difference(b.left)@, y.difference(b.top)@, "alt-box"@)
        + polygon_markup(tab_points(b), "alt-label-box"@) + text_markup(
        b.left.sum(num(5_000))@,
        b.top.sum(num(11_000))@,
        "alt"@,
        "alt-label-text"@,
    )
}

// ---------------------------------------------------------------------------
// The stream of elements
// ---------------------------------------------------------------------------

/// Where the drawing of the elements stands: the height of the next
/// element, and the blocks that are open, the innermost last.
pub struct Cursor {
    pub y: Num,
    pub open: Seq<OpenBlock>,
}

/// The drawing of one element. The end of a block is drawn only where a
/// block is open, and so is an `else`.
pub open spec fn element_markup(
    ps: Seq<ParticipantView>,
    e: ElementView,
    cur: Cursor,
    width: Num,
    style: Measures,
) -> Seq<char> {
    match e {
        ElementView::Message(m) => message_markup(ps, m, cur.y),
        ElementView::Divider(t) => divider_markup(width, cur.y, t, style),
        ElementView::AltStart(c) => condition_markup(
            block_left(ps, style),
            cur.y,
            c,
            "alt-condition-text"@,
        ),
        ElementView::ElseBranch(c) => if cur.open.len() > 0 {
            else_markup(cur.open.last(), cur.y, c)
        } else {
            Seq::empty()
        },
        ElementView::AltEnd => if cur.open.len() > 0 {
            block_markup(cur.open.last(), cur.y)
        } else {
            Seq::empty()
        },
        ElementView::Note { on, text } => Seq::empty(),
    }
}

/// Where the drawing stands after one element. The start of a block opens
/// one; the end of a block closes the innermost, and changes nothing but the
/// height where none is open.
pub open spec fn after_element(
    ps: Seq<ParticipantView>,
    e: ElementView,
    cur: Cursor,
    style: Measures,
) -> Cursor {
    let share = num(MESSAGE_SPACING as int);
    match e {
        ElementView::Message(m) => Cursor { y: cur.y.sum(share), open: cur.open },
        ElementView::Divider(t) => Cursor { y: cur.y.sum(share), open: cur.open },
        ElementView::AltStart(c) => Cursor {
            y: cur.y.sum(share),
            open: cur.open.push(
                OpenBlock { top: cur.y, left: block_left(ps, style), right: block_right(ps) },
            ),
        },
        ElementView::ElseBranch(c) => Cursor { y: cur.y.sum(share.halved()), open: cur.open },
        ElementView::AltEnd => Cursor {
            y: cur.y.sum(share.halved()),
            open: if cur.open.len() > 0 {
                cur.open.drop_last()
            } else {
                cur.open
            },
        },
        ElementView::Note { on, text } => cur,
    }
}

/// An end of a block that finds no block open is passed over: it draws
/// nothing and closes nothing, and so does an `else` outside any block.
pub proof fn stray_markers_are_passed_over(
    ps: Seq<ParticipantView>,
    cur: Cursor,
    c: Option<Seq<char>>,
    width: Num,
    style: Measures,
)
    requires
        cur.open.len() == 0,
    ensures
        element_markup(ps, ElementView::AltEnd, cur, width, style) == Seq::<char>::empty(),
        after_element(ps, ElementView::AltEnd, cur, style).open == cur.open,
        element_markup(ps, ElementView::ElseBranch(c), cur, width, style) == Seq::<char>::empty(),
        after_element(ps, ElementView::ElseBranch(c), cur, style).open == cur.open,
{
}

/// Every start of a block opens one, and every end closes the innermost
/// that is open and draws it from its start to the height of the end.
pub proof fn blocks_open_and_close(
    ps: Seq<ParticipantView>,
    cur: Cursor,
    c: Seq<char>,
    width: Num,
    style: Measures,
)
    ensures
        after_element(ps, ElementView::AltStart(c), cur, style).open.len() == cur.open.len() + 1,
        after_element(ps, ElementView::AltStart(c), cur, style).open.last().top == cur.y,
        cur.open.len() > 0 ==> after_element(ps, ElementView::AltEnd, cur, style).open
            == cur.open.drop_last() && element_markup(ps, ElementView::AltEnd, cur, width, style)
            == block_markup(cur.open.last(), cur.y),
{
}

/// The drawing of the elements, from the cursor on.
pub open spec fn stream_markup(
    ps: Seq<ParticipantView>,
    es: Seq<ElementView>,
    cur: Cursor,
    width: Num,
    style: Measures,
) -> Seq<char>
    decreases es.len(),
{
    if es.len() == 0 {
        Seq::empty()
    } else {
        element_markup(ps, es[0], cur, width, style) + stream_markup(
            ps,
            es.drop_first(),
            after_element(ps, es[0], cur, style),
            width,
            style,
        )
    }
}

struct Block {
    top: Num,
    left: Num,
    right: Num,
}

impl View for Block {
    type V = OpenBlock;

    closed spec fn view(&self) -> OpenBlock {
        OpenBlock { top: self.top, left: self.left, right: self.right }
    }
}

spec fn block_views(bs: Seq<Block>) -> Seq<OpenBlock> {
    bs.map_values(|b: Block| b@)
}

fn draw_condition(svg: &mut SvgBuilder, left: Num, y: Num, cond: &str, class: &str)
    ensures
        final(svg).markup() == old(svg).markup() + condition_markup(left, y, cond@, class@),
        final(svg).props() == old(svg).props(),
{
    let mut text = "[".to_owned();
    text.append(cond);
    text.append("]");
    svg.text_class(
        left.plus(Num::from_milli(5_000)),
        y.plus(Num::from_milli(15_000)),
        text.as_str(),
        class,
    );
}

fn draw_else(svg: &mut SvgBuilder, b: &Block, y: Num, cond: &Option<String>)
    ensures
        final(svg).markup() == old(svg).markup() + else_markup(b@, y, opt_string(*cond)),
        final(svg).props() == old(svg).props(),
{
    svg.line_class(b.left, y, b.right, y, "alt-divider");
    let ghost lined = svg.markup();
    match cond {
        Some(c) => {
            draw_condition(svg, b.left, y, c.as_str(), "alt-condition-text diagram-text");
        },
        None => {
            proof {
                lemma_join_empty(lined);
            }
        },
    }
    proof {
        lemma_join(
            old(svg).markup(),
            line_markup(b.left@, y@, b.right@, y@, "alt-divider"@),
            match opt_string(*cond) {
                Some(c) => condition_markup(b.left, y, c, "alt-condition-text diagram-text"@),
                None => Seq::empty(),
            },
        );
    }
}

fn draw_block(svg: &mut SvgBuilder, b: &Block, y: Num)
    ensures
        final(svg).markup() == old(svg).markup() + block_markup(b@, y),
        final(svg).props() == old(svg).props(),
{
    svg.rect_class(b.left, b.top, b.right.minus(b.left), y.minus(b.top), "alt-box");
    let low = b.top.plus(Num::from_milli(15_000));
    let mut points: Vec<(Num, Num)> = Vec::new();
    points.push((b.left, b.top));
    points.push((b.left.plus(Num::from_milli(30_000)), b.top));
    points.push((b.left.plus(Num::from_milli(40_000)), low));
    points.push((b.left, low));
    assert(points@ =~= tab_points(b@));
    svg.polygon_class(points.as_slice(), "alt-label-box");
    svg.text_class(
        b.left.plus(Num::from_milli(5_000)),
        b.top.plus(Num::from_milli(11_000)),
        "alt",
        "alt-label-text",
    );
    proof {
        let r = rect_markup(
            b.left@,
            b.top@,
            b.right.difference(b.left)@,
            y.difference(b.top)@,
            "alt-box"@,
        );
        let p = polygon_markup(tab_points(b@), "alt-label-box"@);
        let t = text_markup(
            b.left.sum(num(5_000))@,
            b.top.sum(num(11_000))@,
            "alt"@,
            "alt-label-text"@,
        );
        lemma_join(old(svg).markup(), r, p);
        lemma_join(old(svg).markup(), r + p, t);
    }
}

fn draw_element(
    svg: &mut SvgBuilder,
    participants: &Vec<Participant>,
    elem: &Element,
    y: &mut Num,
    stack: &mut Vec<Block>,
    width: Num,
    style: &DiagramStyle,
)
    ensures
        final(svg).markup() == old(svg).markup() + element_markup(
            participant_views(participants@),
            elem@,
            (Cursor { y: *old(y), open: block_views(old(stack)@) }),
            width,
            style.measures(),
        ),
        final(svg).props() == old(svg).props(),
        (Cursor { y: *final(y), open: block_views(final(stack)@) }) == after_element(
            participant_views(participants@),
            elem@,
            (Cursor { y: *old(y), open: block_views(old(stack)@) }),
            style.measures(),
        ),
{
    let share = Num::from_milli(MESSAGE_SPACING);
    let ghost before = block_views(stack@);
    match elem {
        Element::Message(msg) => {
            draw_message(svg, participants, msg, *y, style);
            *y = y.plus(share);
        },
        Element::Divider(text) => {
            draw_divider(svg, width, *y, text.as_str(), style);
            *y = y.plus(share);
        },
        Element::AltStart(cond) => {
            let (left, right) = get_diagram_bounds(participants, style);
            draw_condition(svg, left, *y, cond.as_str(), "alt-condition-text");
            let b = Block { top: *y, left, right };
            stack.push(b);
            assert(block_views(stack@) =~= before.push(b@));
            *y = y.plus(share);
        },
        Element::ElseBranch(cond) => {
            let n: usize = stack.len();
            if n > 0 {
                assert(before.last() == stack@[n - 1]@);
                draw_else(svg, &stack[n - 1], *y, cond);
            } else {
                proof {
                    lemma_join_empty(svg.markup());
                }
            }
            *y = y.plus(share.half());
        },
        Element::AltEnd => {
            match stack.pop() {
                Some(b) => {
                    assert(before.last() == b@);
                    assert(block_views(stack@) =~= before.drop_last());
                    draw_block(svg, &b, *y);
                },
                None => {
                    proof {
                        lemma_join_empty(svg.markup());
                    }
                },
            }
            *y = y.plus(share.half());
        },
        Element::Note { .. } => {
            proof {
                lemma_join_empty(svg.markup());
            }
        },
    }
}

// ---------------------------------------------------------------------------
// The whole drawing
// ---------------------------------------------------------------------------

/// Where the drawing of the elements begins.
pub open spec fn first_cursor(style: Measures) -> Cursor {
    Cursor {
        y: top_of(style).sum(num(PARTICIPANT_HEIGHT as int)).sum(num(30_000)),
        open: Seq::empty(),
    }
}

/// The drawing of a laid-out diagram inside the root element: the
/// definitions, the lifelines, the boxes of the participants, and the
/// elements.
#[verifier::opaque]
pub open spec fn body_markup(
    ps: Seq<ParticipantView>,
    es: Seq<ElementView>,
    width: Num,
    height: Num,
    style: Measures,
) -> Seq<char> {
    DEFS@ + lifelines_markup(ps, top_of(style), bottom_of(height, style)) + boxes_markup(
        ps,
        top_of(style),
        bottom_of(height, style),
    ) + stream_markup(ps, es, first_cursor(style), width, style)
}

/// The drawing of the sequence diagram that a source text describes, with an
/// external style sheet where one is given.
pub open spec fn drawing(source: Seq<char>, style: Measures, file_css: Option<Seq<char>>) -> Seq<
    char,
> {
    let parsed = crate::sequence_diagram::parser::parsed(source);
    let d = laid_out(parsed, style);
    opening(
        total_width(d.participants, style)@,
        total_height(d.elements, style)@,
        file_css,
        custom_css(source),
    ) + body_markup(
        d.participants,
        d.elements,
        total_width(d.participants, style),
        total_height(d.elements, style),
        style,
    ) + "</svg>"@
}

fn draw_lifelines(svg: &mut SvgBuilder, diagram: &SequenceDiagram, top: Num, bottom: Num)
    ensures
        final(svg).markup() == old(svg).markup() + lifelines_markup(
            diagram@.participants,
            top,
            bottom,
        ),
        final(svg).props() == old(svg).props(),
{
    let ghost ps = diagram@.participants;
    let ghost start = svg.markup();
    let mut i: usize = 0;
    proof {
        lemma_join_empty(start);
        assert(ps.take(0) =~= Seq::<ParticipantView>::empty());
    }
    while i < diagram.participants.len()
        invariant
            i <= diagram.participants@.len(),
            ps == diagram@.participants,
            svg.props() == old(svg).props(),
            svg.markup() == start + lifelines_markup(ps.take(i as int), top, bottom),
        decreases diagram.participants@.len() - i,
    {
        let p = &diagram.participants[i];
        let ghost before = lifelines_markup(ps.take(i as int), top, bottom);
        svg.line_class(p.x, top.plus(Num::from_milli(PARTICIPANT_HEIGHT)), p.x, bottom, "lifeline");
        proof {
            assert(ps.take(i + 1).drop_last() =~= ps.take(i as int));
            assert(ps.take(i + 1).last() == p@);
            lemma_join(start, before, lifeline_markup(p@, top, bottom));
        }
        i += 1;
    }
    assert(ps.take(ps.len() as int) =~= ps);
}

fn draw_boxes(
    svg: &mut SvgBuilder,
    diagram: &SequenceDiagram,
    top: Num,
    bottom: Num,
    style: &DiagramStyle,
)
    ensures
        final(svg).markup() == old(svg).markup() + boxes_markup(diagram@.participants, top, bottom),
        final(svg).props() == old(svg).props(),
{
    let ghost ps = diagram@.participants;
    let ghost start = svg.markup();
    let height = Num::from_milli(PARTICIPANT_HEIGHT);
    let mut i: usize = 0;
    proof {
        lemma_join_empty(start);
        assert(ps.take(0) =~= Seq::<ParticipantView>::empty());
    }
    while i < diagram.participants.len()
        invariant
            i <= diagram.participants@.len(),
            ps == diagram@.participants,
            height == num(PARTICIPANT_HEIGHT as int),
            svg.props() == old(svg).props(),
            svg.markup() == start + boxes_markup(ps.take(i as int), top, bottom),
        decreases diagram.participants@.len() - i,
    {
        let p = &diagram.participants[i];
        let ghost before = boxes_markup(ps.take(i as int), top, bottom);
        draw_participant_box(svg, p, top, height, style);
        draw_participant_box(svg, p, bottom, height, style);
        proof {
            assert(ps.take(i + 1).drop_last() =~= ps.take(i as int));
            assert(ps.take(i + 1).last() == p@);
            lemma_join(start, before, participant_box(p@, top, height));
            lemma_join(
                start,
                before + participant_box(p@, top, height),
                participant_box(p@, bottom, height),
            );
        }
        i += 1;
    }
    assert(ps.take(ps.len() as int) =~= ps);
}

fn draw_stream(svg: &mut SvgBuilder, diagram: &SequenceDiagram, width: Num, style: &DiagramStyle)
    ensures
        final(svg).markup() == old(svg).markup() + stream_markup(
            diagram@.participants,
            diagram@.elements,
            first_cursor(style.measures()),
            width,
            style.measures(),
        ),
        final(svg).props() == old(svg).props(),
{
    let ghost ps = diagram@.participants;
    let ghost es = diagram@.elements;
    let ghost start = svg.markup();
    let mut y = style.margin.plus(Num::from_milli(PARTICIPANT_HEIGHT)).plus(Num::from_milli(30_000));
    let mut stack: Vec<Block> = Vec::new();
    let mut i: usize = 0;
    proof {
        assert(es.skip(0) =~= es);
        assert(block_views(stack@) =~= Seq::<OpenBlock>::empty());
    }
    while i < diagram.elements.len()
        invariant
            i <= diagram.elements@.len(),
            ps == diagram@.participants,
            es == diagram@.elements,
            svg.props() == old(svg).props(),
            svg.markup() + stream_markup(
                ps,
                es.skip(i as int),
                (Cursor { y, open: block_views(stack@) }),
                width,
                style.measures(),
            ) == start + stream_markup(ps, es, first_cursor(style.measures()), width, style.measures()),
        decreases diagram.elements@.len() - i,
    {
        let ghost cur = Cursor { y, open: block_views(stack@) };
        let ghost drawn = svg.markup();
        let ghost rest = es.skip(i as int);
        draw_element(svg, &diagram.participants, &diagram.elements[i], &mut y, &mut stack, width, style);
        proof {
            assert(rest[0] == diagram.elements@[i as int]@);
            assert(rest.drop_first() =~= es.skip(i + 1));
            lemma_join(
                drawn,
                element_markup(ps, rest[0], cur, width, style.measures()),
                stream_markup(
                    ps,
                    es.skip(i + 1),
                    after_element(ps, rest[0], cur, style.measures()),
                    width,
                    style.measures(),
                ),
            );
        }
        i += 1;
    }
    proof {
        assert(es.skip(es.len() as int) =~= Seq::<ElementView>::empty());
        lemma_join_empty(svg.markup());
    }
}

/// Draws the sequence diagram that a source text describes.
pub fn render(source: &str, style: &DiagramStyle) -> (r: String)
    ensures
        r@ == drawing(source@, style.measures(), None),
{
    render_with_file_css(source, style, None)
}

/// Draws the sequence diagram that a source text describes, with an external
/// style sheet between the built-in one and the inline one.
pub fn render_with_file_css(source: &str, style: &DiagramStyle, file_css: Option<&str>) -> (r:
    String)
    ensures
        r@ == drawing(source@, style.measures(), opt_text(file_css)),
{
    reveal(body_markup);
    let mut diagram = Parser::new().parse(source);
    diagram.layout(style);
    let (width, height) = diagram.calculate_dimensions(style);
    let inline_css = extract_custom_css(source);
    let inline: Option<&str> = match &inline_css {
        Some(css) => Some(css.as_str()),
        None => None,
    };
    assert(opt_text(inline) == custom_css(source@));
    let mut svg = SvgBuilder::new(width, height, style, file_css, inline);
    let ghost open = svg.markup();
    let ghost ps = diagram@.participants;
    let ghost es = diagram@.elements;
    svg.push(DEFS);
    let top = style.margin;
    let bottom = height.minus(style.margin).minus(Num::from_milli(PARTICIPANT_HEIGHT));
    draw_lifelines(&mut svg, &diagram, top, bottom);
    draw_boxes(&mut svg, &diagram, top, bottom, style);
    draw_stream(&mut svg, &diagram, width, style);
    proof {
        let a = DEFS@;
        let b = lifelines_markup(ps, top, bottom);
        let c = boxes_markup(ps, top, bottom);
        let d = stream_markup(ps, es, first_cursor(style.measures()), width, style.measures());
        lemma_join(open, a, b);
        lemma_join(open, a + b, c);
        lemma_join(open, a + b + c, d);
    }
    svg.finish()
}

} // verus!
