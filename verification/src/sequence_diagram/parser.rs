//! The parser of sequence diagrams: a line-oriented scan. It never fails: a
//! line that it does not recognise is passed over.

use crate::class_diagram::parser::passed_over;
use crate::number::{integer_value, num, parse_integer, Num};
use crate::sequence_diagram::model::{
    all_known, element_views, lemma_seat_from, named, participant_views, seat, seat_from, unique,
    ArrowStyle, Element, ElementView, Message, MessageView, Participant, ParticipantView,
    SequenceDiagram, SequenceDiagramView,
};
use crate::text::{
    char_index, chars_of, contains, cut, ends_with, equals, find, find_char, has_prefix,
    has_suffix, includes, index_of, lemma_lines_step, lines_of, next_line, starts_with, string_of,
    strip_prefix, trim, trim_char, trimmed, trimmed_end_of, trimmed_start_of, words, words_of,
};
use vstd::prelude::*;
use vstd::slice::slice_subrange;

verus! {

// ---------------------------------------------------------------------------
// The state of the parser
// ---------------------------------------------------------------------------

/// What the parser holds: the participants in the order in which they were
/// first named, the rank that the next new participant gets, and the
/// elements in the order of the source.
pub struct ParserView {
    pub participants: Seq<ParticipantView>,
    pub next_order: int,
    pub elements: Seq<ElementView>,
}

/// The rank after `n`. The last rank that fits in 32 bits is its own
/// successor.
pub open spec fn bumped(n: int) -> int {
    if n < i32::MAX {
        n + 1
    } else {
        n
    }
}

/// A participant without a place.
pub open spec fn seated(name: Seq<char>, order: int) -> ParticipantView {
    ParticipantView { name, order, x: num(0), width: num(0) }
}

/// The state after `name` was named with the rank `order`: where no
/// participant has the name, one of that name and rank comes last, and the
/// next rank is one more.
pub open spec fn with_participant(st: ParserView, name: Seq<char>, order: int) -> ParserView {
    if seat(st.participants, name) is Some {
        st
    } else {
        ParserView {
            participants: st.participants.push(seated(name, order)),
            next_order: bumped(st.next_order),
            elements: st.elements,
        }
    }
}

/// The state after `name` was referred to: where no participant has the
/// name, one of that name comes last, with the next rank.
pub open spec fn with_referred(st: ParserView, name: Seq<char>) -> ParserView {
    with_participant(st, name, st.next_order)
}

/// The state with one more element.
pub open spec fn with_element(st: ParserView, e: ElementView) -> ParserView {
    ParserView {
        participants: st.participants,
        next_order: st.next_order,
        elements: st.elements.push(e),
    }
}

// ---------------------------------------------------------------------------
// Declarations of participants
// ---------------------------------------------------------------------------

/// The first index at or after `i` of the word `w`.
pub open spec fn word_index_from(ws: Seq<Seq<char>>, w: Seq<char>, i: int) -> Option<int>
    decreases ws.len() - i,
{
    if i < 0 || i >= ws.len() {
        None
    } else if ws[i] == w {
        Some(i)
    } else {
        word_index_from(ws, w, i + 1)
    }
}

/// The rank that a declaration states: the whole number after the first word
/// `order`.
pub open spec fn stated_order(ws: Seq<Seq<char>>) -> Option<int> {
    match word_index_from(ws, "order"@, 0) {
        Some(p) => if 0 <= p && p + 1 < ws.len() {
            integer_value(ws[p + 1])
        } else {
            None
        },
        None => None,
    }
}

/// The state after a declaration: its first word names the participant, who
/// gets the stated rank, or the next rank where none is stated.
pub open spec fn declare(st: ParserView, rest: Seq<char>) -> ParserView {
    let ws = words_of(rest);
    if ws.len() == 0 {
        st
    } else {
        with_participant(
            st,
            ws[0],
            match stated_order(ws) {
                Some(o) => o,
                None => st.next_order,
            },
        )
    }
}

// ---------------------------------------------------------------------------
// Messages
// ---------------------------------------------------------------------------

/// The number of arrow tokens.
pub open spec fn arrow_count() -> int {
    4
}

/// The arrow tokens, in the order in which a line is tried against them: the
/// longest first.
pub open spec fn arrow_text(i: int) -> Seq<char> {
    if i == 0 {
        "-->>"@
    } else if i == 1 {
        "->>"@
    } else if i == 2 {
        "-->"@
    } else {
        "->"@
    }
}

/// The style that each arrow token stands for.
pub open spec fn arrow_style(i: int) -> ArrowStyle {
    if i == 0 {
        ArrowStyle::DashedOpen
    } else if i == 1 {
        ArrowStyle::SolidOpen
    } else if i == 2 {
        ArrowStyle::Dashed
    } else {
        ArrowStyle::Solid
    }
}

/// The first arrow token, from token `i` on, that the line holds.
pub open spec fn first_arrow(line: Seq<char>, i: int) -> Option<int>
    decreases arrow_count() - i,
{
    if i < 0 || i >= arrow_count() {
        None
    } else if includes(line, arrow_text(i)) {
        Some(i)
    } else {
        first_arrow(line, i + 1)
    }
}

/// The receiver of a message: what follows the arrow, up to the first colon.
pub open spec fn receiver(rest: Seq<char>) -> Seq<char> {
    match char_index(rest, ':') {
        Some(c) => trimmed(rest.take(c)),
        None => trimmed(rest),
    }
}

/// The text of a message: what follows the first colon after the arrow.
pub open spec fn message_text(rest: Seq<char>) -> Seq<char> {
    match char_index(rest, ':') {
        Some(c) => trimmed(rest.skip(c + 1)),
        None => Seq::empty(),
    }
}

/// The message that a line states by one arrow token: the token's first
/// occurrence parts the sender from the receiver and the text. `None` where
/// the line does not hold the token, or the sender or the receiver is empty.
pub open spec fn message_by(line: Seq<char>, token: Seq<char>, style: ArrowStyle) -> Option<
    MessageView,
> {
    match index_of(line, token) {
        Some(p) => {
            let from = trimmed(line.take(p));
            let rest = line.skip(p + token.len());
            if from.len() > 0 && receiver(rest).len() > 0 {
                Some(MessageView { from, to: receiver(rest), text: message_text(rest), style })
            } else {
                None
            }
        },
        None => None,
    }
}

/// The message that a line states: the one by the first arrow token that the
/// line holds.
pub open spec fn parsed_message(line: Seq<char>) -> Option<MessageView> {
    match first_arrow(line, 0) {
        Some(i) => message_by(line, arrow_text(i), arrow_style(i)),
        None => None,
    }
}

/// The state after a line that is tried as a message: where it states one,
/// the sender and the receiver are participants from now on, and the message
/// is the last element.
pub open spec fn send(st: ParserView, line: Seq<char>) -> ParserView {
    match parsed_message(line) {
        Some(m) => with_element(
            with_referred(with_referred(st, m.from), m.to),
            ElementView::Message(m),
        ),
        None => st,
    }
}

// ---------------------------------------------------------------------------
// Lines
// ---------------------------------------------------------------------------

/// The text of a divider: the line without the full stops and the white
/// space round it.
pub open spec fn divider_text(line: Seq<char>) -> Seq<char> {
    trimmed(trimmed_end_of(trimmed_start_of(line, '.'), '.'))
}

/// The condition of an `else` line: what follows the word, where anything
/// does.
pub open spec fn else_condition(line: Seq<char>) -> Option<Seq<char>> {
    if line == "else"@ {
        None
    } else {
        Some(trimmed(line.skip("else"@.len() as int)))
    }
}

/// The state after one line of the diagram.
pub open spec fn step(st: ParserView, line: Seq<char>) -> ParserView {
    if has_prefix(line, "participant "@) {
        declare(st, line.skip("participant "@.len() as int))
    } else if has_prefix(line, "actor "@) {
        declare(st, line.skip("actor "@.len() as int))
    } else if has_prefix(line, "..."@) && has_suffix(line, "..."@) {
        with_element(st, ElementView::Divider(divider_text(line)))
    } else if has_prefix(line, "alt "@) {
        with_element(st, ElementView::AltStart(trimmed(line.skip("alt "@.len() as int))))
    } else if line == "else"@ || has_prefix(line, "else "@) {
        with_element(st, ElementView::ElseBranch(else_condition(line)))
    } else if line == "end"@ {
        with_element(st, ElementView::AltEnd)
    } else {
        send(st, line)
    }
}

/// The state after the lines `ls`. Only the lines between `@start_uml` and
/// `@end_uml` count; `inside` says whether the first was passed.
pub open spec fn scan(st: ParserView, inside: bool, ls: Seq<Seq<char>>) -> ParserView
    decreases ls.len(),
{
    if ls.len() == 0 {
        st
    } else {
        let t = trimmed(ls[0]);
        if passed_over(t) {
            scan(st, inside, ls.drop_first())
        } else if has_prefix(t, "@start_uml"@) {
            scan(st, true, ls.drop_first())
        } else if has_prefix(t, "@end_uml"@) {
            st
        } else if inside {
            scan(step(st, t), true, ls.drop_first())
        } else {
            scan(st, false, ls.drop_first())
        }
    }
}

/// The state of a parser that has read nothing.
pub open spec fn fresh() -> ParserView {
    ParserView { participants: Seq::empty(), next_order: 0, elements: Seq::empty() }
}

// ---------------------------------------------------------------------------
// The order of the participants
// ---------------------------------------------------------------------------

/// A list in rising rank with `p` put in: behind every participant whose
/// rank is not above its own.
pub open spec fn inserted(sorted: Seq<ParticipantView>, p: ParticipantView) -> Seq<ParticipantView>
    decreases sorted.len(),
{
    if sorted.len() == 0 {
        seq![p]
    } else if sorted.last().order <= p.order {
        sorted.push(p)
    } else {
        inserted(sorted.drop_last(), p).push(sorted.last())
    }
}

/// The participants by rising rank; those of one rank keep their order.
pub open spec fn by_order(ps: Seq<ParticipantView>) -> Seq<ParticipantView>
    decreases ps.len(),
{
    if ps.len() == 0 {
        Seq::empty()
    } else {
        inserted(by_order(ps.drop_last()), ps.last())
    }
}

/// The ranks rise from left to right.
pub open spec fn rising(ps: Seq<ParticipantView>) -> bool {
    forall|i: int, j: int| 0 <= i < j < ps.len() ==> (#[trigger] ps[i]).order <= (#[trigger] ps[j]).order
}

/// Putting `p` in is putting it at the index behind the last participant
/// whose rank is not above its own.
pub proof fn lemma_inserted(sorted: Seq<ParticipantView>, p: ParticipantView, k: int)
    requires
        0 <= k <= sorted.len(),
        k > 0 ==> sorted[k - 1].order <= p.order,
        forall|j: int| k <= j < sorted.len() ==> (#[trigger] sorted[j]).order > p.order,
    ensures
        inserted(sorted, p) == sorted.insert(k, p),
    decreases sorted.len(),
{
    if sorted.len() == 0 {
        assert(seq![p] =~= sorted.insert(k, p));
    } else if k == sorted.len() {
        assert(sorted.push(p) =~= sorted.insert(k, p));
    } else {
        assert(sorted[sorted.len() - 1].order > p.order);
        lemma_inserted(sorted.drop_last(), p, k);
        assert(sorted.drop_last().insert(k, p).push(sorted.last()) =~= sorted.insert(k, p));
    }
}

/// Putting a participant into a list in rising rank keeps the ranks rising,
/// takes no participant away and adds no other.
pub proof fn lemma_inserted_rising(sorted: Seq<ParticipantView>, p: ParticipantView)
    requires
        rising(sorted),
    ensures
        rising(inserted(sorted, p)),
        inserted(sorted, p).to_multiset() == sorted.to_multiset().insert(p),
        inserted(sorted, p).len() == sorted.len() + 1,
    decreases sorted.len(),
{
    broadcast use vstd::seq_lib::group_to_multiset_ensures;

    if sorted.len() == 0 {
        assert(sorted =~= Seq::<ParticipantView>::empty());
        assert(seq![p] =~= sorted.push(p));
    } else if sorted.last().order <= p.order {
    } else {
        let front = sorted.drop_last();
        assert(rising(front)) by {
            assert forall|i: int, j: int| 0 <= i < j < front.len() implies (#[trigger] front[i]).order
                <= (#[trigger] front[j]).order by {
                assert(front[i] == sorted[i] && front[j] == sorted[j]);
            }
        }
        lemma_inserted_rising(front, p);
        let mid = inserted(front, p);
        let out = mid.push(sorted.last());
        assert(sorted =~= front.push(sorted.last()));
        assert forall|i: int, j: int| 0 <= i < j < out.len() implies (#[trigger] out[i]).order <= (
        #[trigger] out[j]).order by {
            if j == out.len() - 1 {
                // Every member of `mid` is `p` or a member of `front`.
                assert(mid.to_multiset().count(mid[i]) > 0);
                if mid[i] != p {
                    assert(front.to_multiset().count(mid[i]) > 0);
                    let w = choose|w: int| 0 <= w < front.len() && front[w] == mid[i];
                    assert(sorted[w] == front[w]);
                    assert(sorted[w].order <= sorted[sorted.len() - 1].order);
                }
            } else {
                assert(out[i] == mid[i] && out[j] == mid[j]);
            }
        }
    }
}

/// Ordering the participants lets the ranks rise, takes no participant away
/// and adds no other.
pub proof fn lemma_by_order(ps: Seq<ParticipantView>)
    ensures
        rising(by_order(ps)),
        by_order(ps).to_multiset() == ps.to_multiset(),
        by_order(ps).len() == ps.len(),
    decreases ps.len(),
{
    broadcast use vstd::seq_lib::group_to_multiset_ensures;

    if ps.len() == 0 {
        assert(ps =~= Seq::<ParticipantView>::empty());
    } else {
        lemma_by_order(ps.drop_last());
        lemma_inserted_rising(by_order(ps.drop_last()), ps.last());
        assert(ps =~= ps.drop_last().push(ps.last()));
    }
}

/// The diagram that a source text describes.
pub open spec fn parsed(source: Seq<char>) -> SequenceDiagramView {
    ordered(scan(fresh(), false, lines_of(source)))
}

/// The participants of a state, by rising rank, and its elements as a
/// diagram.
pub open spec fn ordered(st: ParserView) -> SequenceDiagramView {
    SequenceDiagramView { participants: by_order(st.participants), elements: st.elements }
}

// ---------------------------------------------------------------------------
// What holds of every diagram that is read
// ---------------------------------------------------------------------------

/// The participants and elements of a state as a diagram, in the order in
/// which the participants were first named.
pub open spec fn diagram_of(st: ParserView) -> SequenceDiagramView {
    SequenceDiagramView { participants: st.participants, elements: st.elements }
}

/// Every participant of `a` is a participant of `b`, by its name.
pub open spec fn names_kept(a: Seq<ParticipantView>, b: Seq<ParticipantView>) -> bool {
    forall|name: Seq<char>| named(a, name) ==> named(b, name)
}

proof fn lemma_pushed(ps: Seq<ParticipantView>, p: ParticipantView)
    ensures
        forall|name: Seq<char>|
            #![trigger named(ps.push(p), name)]
            #![trigger named(ps, name)]
            named(ps.push(p), name) <==> named(ps, name) || name == p.name,
        unique(ps) && !named(ps, p.name) ==> unique(ps.push(p)),
{
    let grown = ps.push(p);
    assert forall|name: Seq<char>| named(grown, name) <==> named(ps, name) || name
        == p.name by {
        if named(grown, name) {
            let i = choose|i: int| 0 <= i < grown.len() && (#[trigger] grown[i]).name == name;
            if i < ps.len() {
                assert(ps[i].name == name);
            }
        }
        if named(ps, name) {
            let i = choose|i: int| 0 <= i < ps.len() && (#[trigger] ps[i]).name == name;
            assert(grown[i].name == name);
        }
        if name == p.name {
            assert(grown[ps.len() as int].name == name);
        }
    }
    if unique(ps) && !named(ps, p.name) {
        assert forall|i: int, j: int| 0 <= i < j < grown.len() implies (#[trigger] grown[i]).name
            != (#[trigger] grown[j]).name by {
            assert(grown[i] == ps[i]);
            if j < ps.len() {
                assert(grown[j] == ps[j]);
            }
        }
    }
}

/// Naming a participant keeps every participant, by its name, and keeps the
/// names distinct; the participant named is one of them.
pub proof fn lemma_with_participant(st: ParserView, name: Seq<char>, order: int)
    ensures
        names_kept(st.participants, with_participant(st, name, order).participants),
        named(with_participant(st, name, order).participants, name),
        unique(st.participants) ==> unique(with_participant(st, name, order).participants),
        with_participant(st, name, order).elements == st.elements,
{
    lemma_seat_from(st.participants, name, 0);
    lemma_pushed(st.participants, seated(name, order));
    match seat(st.participants, name) {
        Some(i) => {
            assert(st.participants[i].name == name);
        },
        None => {
            assert(!named(st.participants, name));
        },
    }
}

proof fn lemma_known_kept(a: Seq<ParticipantView>, b: Seq<ParticipantView>, es: Seq<ElementView>)
    requires
        all_known(a, es),
        names_kept(a, b),
    ensures
        all_known(b, es),
{
    assert forall|k: int| 0 <= k < es.len() implies ((#[trigger] es[k]) matches ElementView::Message(
        m,
    ) ==> named(b, m.from) && named(b, m.to)) by {
        if let ElementView::Message(m) = es[k] {
            assert(named(a, m.from) && named(a, m.to));
        }
    }
}

/// One line keeps a well-formed state well formed.
pub proof fn lemma_step_wf(st: ParserView, line: Seq<char>)
    requires
        diagram_of(st).wf(),
    ensures
        diagram_of(step(st, line)).wf(),
{
    let after = step(st, line);
    if has_prefix(line, "participant "@) || has_prefix(line, "actor "@) {
        let rest = if has_prefix(line, "participant "@) {
            line.skip("participant "@.len() as int)
        } else {
            line.skip("actor "@.len() as int)
        };
        let ws = words_of(rest);
        if ws.len() > 0 {
            let order = match stated_order(ws) {
                Some(o) => o,
                None => st.next_order,
            };
            lemma_with_participant(st, ws[0], order);
            lemma_known_kept(st.participants, after.participants, st.elements);
        }
    } else if has_prefix(line, "..."@) && has_suffix(line, "..."@) {
        assert(after.elements == st.elements.push(ElementView::Divider(divider_text(line))));
    } else if has_prefix(line, "alt "@) {
    } else if line == "else"@ || has_prefix(line, "else "@) {
    } else if line == "end"@ {
    } else {
        match parsed_message(line) {
            Some(m) => {
                let first = with_referred(st, m.from);
                let second = with_referred(first, m.to);
                lemma_with_participant(st, m.from, st.next_order);
                lemma_with_participant(first, m.to, first.next_order);
                lemma_known_kept(st.participants, first.participants, st.elements);
                lemma_known_kept(first.participants, second.participants, st.elements);
                assert(named(second.participants, m.from));
                assert forall|k: int| 0 <= k < after.elements.len() implies ((
                #[trigger] after.elements[k]) matches ElementView::Message(x) ==> named(
                    after.participants,
                    x.from,
                ) && named(after.participants, x.to)) by {
                    if k < st.elements.len() {
                        assert(after.elements[k] == st.elements[k]);
                    }
                }
            },
            None => {},
        }
    }
}

/// Any number of lines keeps a well-formed state well formed.
pub proof fn lemma_scan_wf(st: ParserView, inside: bool, ls: Seq<Seq<char>>)
    requires
        diagram_of(st).wf(),
    ensures
        diagram_of(scan(st, inside, ls)).wf(),
    decreases ls.len(),
{
    if ls.len() > 0 {
        let t = trimmed(ls[0]);
        if passed_over(t) {
            lemma_scan_wf(st, inside, ls.drop_first());
        } else if has_prefix(t, "@start_uml"@) {
            lemma_scan_wf(st, true, ls.drop_first());
        } else if has_prefix(t, "@end_uml"@) {
        } else if inside {
            lemma_step_wf(st, t);
            lemma_scan_wf(step(st, t), true, ls.drop_first());
        } else {
            lemma_scan_wf(st, false, ls.drop_first());
        }
    }
}

/// Putting a participant into a list adds its name to the names of the
/// list, and keeps the names distinct where its own is new.
pub proof fn lemma_inserted_names(sorted: Seq<ParticipantView>, p: ParticipantView)
    ensures
        forall|name: Seq<char>|
            #![trigger named(inserted(sorted, p), name)]
            #![trigger named(sorted, name)]
            named(inserted(sorted, p), name) <==> named(sorted, name) || name == p.name,
        unique(sorted) && !named(sorted, p.name) ==> unique(inserted(sorted, p)),
    decreases sorted.len(),
{
    if sorted.len() == 0 {
        assert(seq![p] =~= sorted.push(p));
        lemma_pushed(sorted, p);
    } else if sorted.last().order <= p.order {
        lemma_pushed(sorted, p);
    } else {
        let front = sorted.drop_last();
        let last = sorted.last();
        assert(sorted =~= front.push(last));
        lemma_inserted_names(front, p);
        lemma_pushed(front, last);
        lemma_pushed(inserted(front, p), last);
        if unique(sorted) && !named(sorted, p.name) {
            assert(unique(front)) by {
                assert forall|i: int, j: int| 0 <= i < j < front.len() implies (
                #[trigger] front[i]).name != (#[trigger] front[j]).name by {
                    assert(front[i] == sorted[i] && front[j] == sorted[j]);
                }
            }
            assert(!named(front, last.name)) by {
                if named(front, last.name) {
                    let i = choose|i: int| 0 <= i < front.len() && (#[trigger] front[i]).name
                        == last.name;
                    assert(sorted[i] == front[i]);
                    assert(sorted[sorted.len() - 1] == last);
                }
            }
        }
    }
}

/// Ordering the participants changes no name, and keeps the names distinct.
pub proof fn lemma_by_order_names(ps: Seq<ParticipantView>)
    ensures
        forall|name: Seq<char>|
            #![trigger named(by_order(ps), name)]
            #![trigger named(ps, name)]
            named(by_order(ps), name) <==> named(ps, name),
        unique(ps) ==> unique(by_order(ps)),
    decreases ps.len(),
{
    if ps.len() == 0 {
        assert(ps =~= Seq::<ParticipantView>::empty());
    } else {
        let front = ps.drop_last();
        let last = ps.last();
        assert(ps =~= front.push(last));
        lemma_by_order_names(front);
        lemma_inserted_names(by_order(front), last);
        lemma_pushed(front, last);
        if unique(ps) {
            assert(unique(front)) by {
                assert forall|i: int, j: int| 0 <= i < j < front.len() implies (
                #[trigger] front[i]).name != (#[trigger] front[j]).name by {
                    assert(front[i] == ps[i] && front[j] == ps[j]);
                }
            }
            assert(!named(front, last.name)) by {
                if named(front, last.name) {
                    let i = choose|i: int| 0 <= i < front.len() && (#[trigger] front[i]).name
                        == last.name;
                    assert(ps[i] == front[i]);
                    assert(ps[ps.len() - 1] == last);
                }
            }
        }
    }
}

/// Ordering the participants keeps a well-formed diagram well formed.
pub proof fn lemma_ordered_wf(st: ParserView)
    requires
        diagram_of(st).wf(),
    ensures
        ordered(st).wf(),
{
    lemma_by_order_names(st.participants);
    lemma_known_kept(st.participants, by_order(st.participants), st.elements);
}

/// Every diagram that is read from a source text is well formed and has its
/// participants by rising rank: no two participants share a name, and the
/// sender and the receiver of each message are participants.
pub proof fn parsed_is_well_formed(source: Seq<char>)
    ensures
        parsed(source).wf(),
        rising(parsed(source).participants),
{
    let st = scan(fresh(), false, lines_of(source));
    lemma_scan_wf(fresh(), false, lines_of(source));
    lemma_ordered_wf(st);
    lemma_by_order(st.participants);
}

// ---------------------------------------------------------------------------
// The parser
// ---------------------------------------------------------------------------

/// The parser of sequence diagrams.
pub struct Parser {
    participants: Vec<Participant>,
    participant_order: i32,
    elements: Vec<Element>,
}

impl View for Parser {
    type V = ParserView;

    closed spec fn view(&self) -> ParserView {
        ParserView {
            participants: participant_views(self.participants@),
            next_order: self.participant_order as int,
            elements: element_views(self.elements@),
        }
    }
}

/// The view of an optional message.
pub open spec fn opt_message(o: Option<Message>) -> Option<MessageView> {
    match o {
        Some(m) => Some(m@),
        None => None,
    }
}

fn arrow(i: usize) -> (r: (&'static str, ArrowStyle))
    requires
        i < 4,
    ensures
        r.0@ == arrow_text(i as int),
        r.1 == arrow_style(i as int),
{
    if i == 0 {
        ("-->>", ArrowStyle::DashedOpen)
    } else if i == 1 {
        ("->>", ArrowStyle::SolidOpen)
    } else if i == 2 {
        ("-->", ArrowStyle::Dashed)
    } else {
        ("->", ArrowStyle::Solid)
    }
}

fn read_message_by(line: &[char], tok: &str, style: ArrowStyle) -> (r: Option<Message>)
    ensures
        opt_message(r) == message_by(line@, tok@, style),
{
    let n: usize = line.len();
    let m: usize = tok.unicode_len();
    match find(line, tok) {
        None => None,
        Some(p) => {
            let from = trim(slice_subrange(line, 0, p));
            let rest = slice_subrange(line, p + m, n);
            proof {
                assert(line@.subrange(0, p as int) =~= line@.take(p as int));
                assert(rest@ =~= line@.skip(p + m));
            }
            let rn: usize = rest.len();
            let (to, text) = match find_char(rest, ':') {
                Some(c) => {
                    proof {
                        assert(rest@.subrange(0, c as int) =~= rest@.take(c as int));
                        assert(rest@.subrange(c + 1, rn as int) =~= rest@.skip(c + 1));
                    }
                    (
                        trim(slice_subrange(rest, 0, c)),
                        string_of(trim(slice_subrange(rest, c + 1, rn))),
                    )
                },
                None => (trim(rest), String::new()),
            };
            if from.len() > 0 && to.len() > 0 {
                Some(Message { from: string_of(from), to: string_of(to), text, style })
            } else {
                None
            }
        },
    }
}

/// The message that a line states, if it states one.
pub fn read_message(line: &[char]) -> (r: Option<Message>)
    ensures
        opt_message(r) == parsed_message(line@),
{
    let mut i: usize = 0;
    while i < 4
        invariant
            i <= 4,
            first_arrow(line@, i as int) == first_arrow(line@, 0),
        decreases 4 - i,
    {
        let (tok, style) = arrow(i);
        if contains(line, tok) {
            return read_message_by(line, tok, style);
        }
        i += 1;
    }
    None
}

fn word_at<'a>(s: &'a [char], r: &Vec<(usize, usize)>, k: usize) -> (w: &'a [char])
    requires
        k < r@.len(),
        cut(s@, r@) == words_of(s@),
        forall|j: int| 0 <= j < r@.len() ==> (#[trigger] r@[j]).0 <= r@[j].1 <= s@.len(),
    ensures
        w@ == words_of(s@)[k as int],
        words_of(s@).len() == r@.len(),
{
    assert(cut(s@, r@)[k as int] == s@.subrange(r@[k as int].0 as int, r@[k as int].1 as int));
    slice_subrange(s, r[k].0, r[k].1)
}

fn read_order(rest: &[char], r: &Vec<(usize, usize)>) -> (o: Option<i32>)
    requires
        cut(rest@, r@) == words_of(rest@),
        forall|j: int| 0 <= j < r@.len() ==> (#[trigger] r@[j]).0 <= r@[j].1 <= rest@.len(),
    ensures
        match o {
            Some(v) => stated_order(words_of(rest@)) == Some(v as int),
            None => stated_order(words_of(rest@)) is None,
        },
{
    let ghost ws = words_of(rest@);
    assert(ws.len() == r@.len()) by {
        assert(cut(rest@, r@).len() == r@.len());
    }
    let mut k: usize = 0;
    while k < r.len()
        invariant
            k <= r@.len(),
            ws == words_of(rest@),
            ws.len() == r@.len(),
            cut(rest@, r@) == words_of(rest@),
            forall|j: int| 0 <= j < r@.len() ==> (#[trigger] r@[j]).0 <= r@[j].1 <= rest@.len(),
            word_index_from(ws, "order"@, k as int) == word_index_from(ws, "order"@, 0),
        decreases r@.len() - k,
    {
        if equals(word_at(rest, r, k), "order") {
            if k + 1 < r.len() {
                return parse_integer(word_at(rest, r, k + 1));
            } else {
                return None;
            }
        }
        k += 1;
    }
    None
}

/// A copy of the participants by rising rank; those of one rank keep their
/// order.
pub fn sort_by_order(ps: &Vec<Participant>) -> (sorted: Vec<Participant>)
    ensures
        participant_views(sorted@) == by_order(participant_views(ps@)),
{
    let ghost all = participant_views(ps@);
    let mut sorted: Vec<Participant> = Vec::new();
    let mut i: usize = 0;
    proof {
        assert(all.take(0) =~= Seq::<ParticipantView>::empty());
        assert(participant_views(sorted@) =~= Seq::<ParticipantView>::empty());
    }
    while i < ps.len()
        invariant
            i <= ps@.len(),
            all == participant_views(ps@),
            participant_views(sorted@) == by_order(all.take(i as int)),
        decreases ps@.len() - i,
    {
        let p = Participant {
            name: ps[i].name.clone(),
            order: ps[i].order,
            x: ps[i].x,
            width: ps[i].width,
        };
        assert(p@ == all[i as int]);
        let mut k: usize = sorted.len();
        while k > 0 && sorted[k - 1].order > p.order
            invariant
                k <= sorted@.len(),
                forall|j: int| k <= j < sorted@.len() ==> (#[trigger] sorted@[j]).order > p.order,
            decreases k,
        {
            k -= 1;
        }
        let ghost before = participant_views(sorted@);
        proof {
            assert(all.take(i + 1).drop_last() =~= all.take(i as int));
            assert(all.take(i + 1).last() == p@);
            lemma_inserted(before, p@, k as int);
        }
        sorted.insert(k, p);
        assert(participant_views(sorted@) =~= before.insert(k as int, p@));
        i += 1;
    }
    assert(all.take(all.len() as int) =~= all);
    sorted
}

impl Parser {
    /// A parser that has read nothing.
    pub fn new() -> (r: Parser)
        ensures
            r@ == fresh(),
    {
        let r = Parser { participants: Vec::new(), participant_order: 0, elements: Vec::new() };
        assert(r@.participants =~= Seq::<ParticipantView>::empty());
        assert(r@.elements =~= Seq::<ElementView>::empty());
        r
    }

    /// Reads a source text and hands out the diagram that it describes, with
    /// its participants by rising rank.
    pub fn parse(self, source: &str) -> (r: SequenceDiagram)
        ensures
            r@ == ordered(scan(self@, false, lines_of(source@))),
            rising(r@.participants),
            diagram_of(self@).wf() ==> r@.wf(),
    {
        proof {
            if diagram_of(self@).wf() {
                lemma_scan_wf(self@, false, lines_of(source@));
                lemma_ordered_wf(scan(self@, false, lines_of(source@)));
            }
        }
        let mut parser = self;
        let text = chars_of(source);
        let s = text.as_slice();
        let n: usize = s.len();
        let mut inside = false;
        let mut done = false;
        let mut pos: usize = 0;
        assert(s@.skip(0) =~= s@);
        while pos < n && !done
            invariant
                pos <= n,
                n == s@.len(),
                s@ == source@,
                !done ==> scan(parser@, inside, lines_of(s@.skip(pos as int))) == scan(
                    self@,
                    false,
                    lines_of(s@),
                ),
                done ==> parser@ == scan(self@, false, lines_of(s@)),
            decreases n - pos,
        {
            let (e, next) = next_line(s, pos);
            let t = trim(slice_subrange(s, pos, e));
            proof {
                lemma_lines_step(s@.skip(pos as int));
            }
            if t.len() == 0 || starts_with(t, "//") || starts_with(t, "skinparam") {
            } else if starts_with(t, "@start_uml") {
                inside = true;
            } else if starts_with(t, "@end_uml") {
                done = true;
            } else if inside {
                parser.parse_line(t);
            }
            pos = next;
        }
        proof {
            if !done {
                assert(s@.skip(n as int) =~= Seq::<char>::empty());
            }
            lemma_by_order(parser@.participants);
        }
        let participants = sort_by_order(&parser.participants);
        SequenceDiagram { participants, elements: parser.elements }
    }

    fn push_element(&mut self, e: Element)
        ensures
            final(self)@ == with_element(old(self)@, e@),
    {
        let ghost before = self.elements@;
        self.elements.push(e);
        assert(element_views(self.elements@) =~= element_views(before).push(e@));
    }

    fn parse_line(&mut self, line: &[char])
        ensures
            final(self)@ == step(old(self)@, line@),
    {
        if let Some(rest) = strip_prefix(line, "participant ") {
            self.parse_participant(rest);
        } else if let Some(rest) = strip_prefix(line, "actor ") {
            self.parse_participant(rest);
        } else if starts_with(line, "...") && ends_with(line, "...") {
            let text = string_of(trim(trim_char(line, '.')));
            self.push_element(Element::Divider(text));
        } else if let Some(rest) = strip_prefix(line, "alt ") {
            self.push_element(Element::AltStart(string_of(trim(rest))));
        } else if equals(line, "else") {
            self.push_element(Element::ElseBranch(None));
        } else if starts_with(line, "else ") {
            let rest = strip_prefix(line, "else");
            let cond = match rest {
                Some(r) => Some(string_of(trim(r))),
                None => None,
            };
            proof {
                reveal_strlit("else");
                reveal_strlit("else ");
                assert(has_prefix(line@, "else"@)) by {
                    assert(line@.subrange(0, 4) =~= line@.subrange(0, 5).subrange(0, 4));
                    assert("else "@.subrange(0, 4) =~= "else"@);
                }
            }
            self.push_element(Element::ElseBranch(cond));
        } else if equals(line, "end") {
            self.push_element(Element::AltEnd);
        } else {
            self.try_parse_message(line);
        }
    }

    fn parse_participant(&mut self, rest: &[char])
        ensures
            final(self)@ == declare(old(self)@, rest@),
    {
        let parts = words(rest);
        assert(cut(rest@, parts@).len() == parts@.len());
        if parts.len() == 0 {
            return ;
        }
        let name = word_at(rest, &parts, 0);
        let order = match read_order(rest, &parts) {
            Some(o) => o,
            None => self.participant_order,
        };
        self.add_participant(name, order);
    }

    fn add_participant(&mut self, name: &[char], order: i32)
        ensures
            final(self)@ == with_participant(old(self)@, name@, order as int),
    {
        let ghost before = self.participants@;
        let mut i: usize = 0;
        while i < self.participants.len()
            invariant
                i <= self.participants@.len(),
                self.participants@ == before,
                self@ == old(self)@,
                seat_from(participant_views(before), name@, i as int) == seat(
                    participant_views(before),
                    name@,
                ),
            decreases self.participants@.len() - i,
        {
            if equals(name, self.participants[i].name.as_str()) {
                return ;
            }
            i += 1;
        }
        let p = Participant { name: string_of(name), order, x: Num::zero(), width: Num::zero() };
        self.participants.push(p);
        assert(participant_views(self.participants@) =~= participant_views(before).push(p@));
        if self.participant_order < i32::MAX {
            self.participant_order = self.participant_order + 1;
        }
    }

    fn ensure_participant(&mut self, name: &[char])
        ensures
            final(self)@ == with_referred(old(self)@, name@),
    {
        let order = self.participant_order;
        self.add_participant(name, order);
    }

    fn try_parse_message(&mut self, line: &[char])
        ensures
            final(self)@ == send(old(self)@, line@),
    {
        match read_message(line) {
            Some(m) => {
                let from = chars_of(m.from.as_str());
                let to = chars_of(m.to.as_str());
                self.ensure_participant(from.as_slice());
                self.ensure_participant(to.as_slice());
                self.push_element(Element::Message(m));
            },
            None => {},
        }
    }
}

} // verus!
