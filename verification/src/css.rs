//! Style sheets: the inline style block of a source text, and the numeric
//! custom properties (`--name: value;`) that a sheet gives to a category.

use crate::number::{decimal_value, Num};
use crate::text::{
    after_first_line, char_index, char_index_from, chars_of, contains, contains_char,
    either_index_from, equals, find, find_char_from, find_either, includes, has_prefix, index_of,
    joined, lemma_lines_step, lines_of, next_line, push_char, push_chars, starts_with, trim,
    trim_end_char, trim_end_unit, trimmed, trimmed_end_of, without_suffix,
};
use vstd::prelude::*;
use vstd::slice::slice_subrange;

verus! {

// ---------------------------------------------------------------------------
// The inline style block
// ---------------------------------------------------------------------------

/// The lines of the inline style block: those after a line `@start_style` and
/// before the first line `@end_style`, but for comment lines. `inside` says
/// whether the start marker has been passed.
pub open spec fn style_block(ls: Seq<Seq<char>>, inside: bool) -> Seq<Seq<char>>
    decreases ls.len(),
{
    if ls.len() == 0 {
        Seq::empty()
    } else {
        let t = trimmed(ls[0]);
        if t == "@start_style"@ {
            style_block(ls.drop_first(), true)
        } else if t == "@end_style"@ {
            Seq::empty()
        } else if inside && !has_prefix(t, "//"@) {
            seq![ls[0]] + style_block(ls.drop_first(), inside)
        } else {
            style_block(ls.drop_first(), inside)
        }
    }
}

/// The inline style sheet of a source text: the lines of its style block,
/// joined by line feeds; `None` where the block holds no line.
pub open spec fn custom_css(source: Seq<char>) -> Option<Seq<char>> {
    let block = style_block(lines_of(source), false);
    if block.len() == 0 {
        None
    } else {
        Some(joined(block))
    }
}

/// The inline style sheet that a source text carries between `@start_style`
/// and `@end_style`.
pub fn extract_custom_css(source: &str) -> (r: Option<String>)
    ensures
        match r {
            Some(css) => custom_css(source@) == Some(css@),
            None => custom_css(source@) is None,
        },
{
    let text = chars_of(source);
    let s = text.as_slice();
    let n: usize = s.len();
    let mut out = String::new();
    let mut any = false;
    let mut inside = false;
    let mut done = false;
    let mut pos: usize = 0;
    let ghost mut kept: Seq<Seq<char>> = Seq::empty();
    assert(s@.skip(0) =~= s@);
    while pos < n && !done
        invariant
            pos <= n,
            n == s@.len(),
            s@ == source@,
            out@ == joined(kept),
            any == (kept.len() > 0),
            !done ==> kept + style_block(lines_of(s@.skip(pos as int)), inside) == style_block(
                lines_of(s@),
                false,
            ),
            done ==> kept == style_block(lines_of(s@), false),
        decreases n - pos,
    {
        let (e, next) = next_line(s, pos);
        let line = slice_subrange(s, pos, e);
        let t = trim(line);
        let ghost rest = s@.skip(pos as int);
        let ghost tail = style_block(lines_of(after_first_line(rest)), inside);
        proof {
            lemma_lines_step(rest);
        }
        if equals(t, "@start_style") {
            inside = true;
        } else if equals(t, "@end_style") {
            done = true;
            assert(kept + Seq::<Seq<char>>::empty() =~= kept);
        } else if inside && !starts_with(t, "//") {
            if any {
                push_char(&mut out, '\n');
            }
            push_chars(&mut out, line);
            proof {
                let grown = kept.push(line@);
                assert(grown.drop_last() =~= kept);
                assert(out@ =~= joined(grown));
                assert(kept + (seq![line@] + tail) =~= grown + tail);
                kept = grown;
            }
            any = true;
        }
        pos = next;
    }
    proof {
        if !done {
            assert(s@.skip(n as int) =~= Seq::<char>::empty());
            assert(kept + Seq::<Seq<char>>::empty() =~= kept);
        }
    }
    if any {
        Some(out)
    } else {
        None
    }
}

// ---------------------------------------------------------------------------
// Declarations
// ---------------------------------------------------------------------------

/// The numeral in the text after a declaration's colon: the text without
/// white space round it, without semicolons at its end, and without the unit
/// `px`.
pub open spec fn value_text(v: Seq<char>) -> Seq<char> {
    without_suffix(trimmed(trimmed_end_of(trimmed(v), ';')), "px"@)
}

fn read_value(v: &[char]) -> (r: Option<Num>)
    ensures
        match r {
            Some(x) => decimal_value(value_text(v@)) == Some(x@),
            None => decimal_value(value_text(v@)) is None,
        },
{
    Num::parse(trim_end_unit(trim(trim_end_char(trim(v), ';')), "px"))
}

/// What a line declares: the name between the first `--` and the colon after
/// it, and the value after that colon. `None` where the line has no such
/// form or the value is no numeral.
pub open spec fn declaration(t: Seq<char>) -> Option<(Seq<char>, int)> {
    match index_of(t, "--"@) {
        Some(p) => match char_index_from(t, ':', p) {
            Some(c) => match decimal_value(value_text(t.skip(c + 1))) {
                Some(v) => if p + 2 <= c {
                    Some((trimmed(t.subrange(p + 2, c)), v))
                } else {
                    None
                },
                None => None,
            },
            None => None,
        },
        None => None,
    }
}

fn read_declaration(t: &[char]) -> (r: Option<(Vec<char>, Num)>)
    ensures
        match r {
            Some(d) => declaration(t@) == Some((d.0@, d.1@)),
            None => declaration(t@) is None,
        },
{
    let n: usize = t.len();
    match find(t, "--") {
        None => None,
        Some(p) => match find_char_from(t, p, ':') {
            None => None,
            Some(c) => {
                let after = slice_subrange(t, c + 1, n);
                assert(after@ =~= t@.skip(c + 1));
                match read_value(after) {
                    None => None,
                    Some(v) => {
                        if p + 2 <= c {
                            let name = trim(slice_subrange(t, p + 2, c));
                            let mut owned: Vec<char> = Vec::new();
                            owned.extend_from_slice(name);
                            assert(owned@ =~= name@);
                            Some((owned, v))
                        } else {
                            None
                        }
                    },
                }
            },
        },
    }
}

// ---------------------------------------------------------------------------
// Property tables
// ---------------------------------------------------------------------------

/// A property table: the value of each pair of a category and a property name.
pub type Table = Map<(Seq<char>, Seq<char>), int>;

/// Where the reading of a sheet stands: the category whose block is open, how
/// deep the braces are nested, and the table so far.
pub struct SheetState {
    pub class: Option<Seq<char>>,
    pub depth: int,
    pub table: Table,
}

/// A selector line: one that begins with a full stop and holds an opening
/// brace.
pub open spec fn is_selector(t: Seq<char>) -> bool {
    has_prefix(t, "."@) && char_index(t, '{') is Some
}

/// The category that a selector line names: what stands between the full stop
/// and the first blank or opening brace.
pub open spec fn selector_class(t: Seq<char>) -> Seq<char> {
    match either_index_from(t, ' ', '{', 0) {
        Some(e) => if 1 <= e <= t.len() {
            t.subrange(1, e)
        } else {
            Seq::empty()
        },
        None => Seq::empty(),
    }
}

/// The depth of the braces after a line, from the depth before it.
pub open spec fn depth_after(t: Seq<char>, depth: int) -> int {
    let opened = if char_index(t, '{') is Some {
        depth + 1
    } else {
        depth
    };
    if char_index(t, '}') is Some {
        opened - 1
    } else {
        opened
    }
}

/// The block that was open is closed by this line.
pub open spec fn closes(t: Seq<char>, depth: int) -> bool {
    char_index(t, '}') is Some && depth_after(t, depth) == 0
}

/// Reading one line of a sheet. A selector line opens the block of its
/// category. Inside a block, the braces are counted, the block ends where
/// they are balanced, and a declaration on a line that does not end the block
/// is entered in the table, over any earlier value.
pub open spec fn sheet_step(st: SheetState, line: Seq<char>) -> SheetState {
    let t = trimmed(line);
    if is_selector(t) {
        SheetState { class: Some(selector_class(t)), depth: 1, table: st.table }
    } else if st.class is Some {
        let class = if closes(t, st.depth) {
            None
        } else {
            st.class
        };
        let table = match (class, declaration(t)) {
            (Some(c), Some(d)) => st.table.insert((c, d.0), d.1),
            _ => st.table,
        };
        SheetState { class, depth: depth_after(t, st.depth), table }
    } else {
        st
    }
}

/// Reading the lines of a sheet one after the other.
pub open spec fn sheet_run(st: SheetState, ls: Seq<Seq<char>>) -> SheetState
    decreases ls.len(),
{
    if ls.len() == 0 {
        st
    } else {
        sheet_run(sheet_step(st, ls[0]), ls.drop_first())
    }
}

/// The table that results when the sheet `css` is read over the table `base`.
pub open spec fn sheet_table(css: Seq<char>, base: Table) -> Table {
    sheet_run(SheetState { class: None, depth: 0, table: base }, lines_of(css)).table
}

/// One entry of a property table.
#[derive(Debug, Clone)]
pub struct CssEntry {
    class: Vec<char>,
    property: Vec<char>,
    value: Num,
}

/// The table that a list of entries stands for: a later entry overrides an
/// earlier one with the same category and name.
pub closed spec fn table_of(es: Seq<CssEntry>) -> Table
    decreases es.len(),
{
    if es.len() == 0 {
        Map::empty()
    } else {
        table_of(es.drop_last()).insert((es.last().class@, es.last().property@), es.last().value@)
    }
}

/// The numeric custom properties collected from style sheets.
#[derive(Debug, Clone)]
pub struct CssProperties {
    entries: Vec<CssEntry>,
}

impl View for CssProperties {
    type V = Table;

    closed spec fn view(&self) -> Table {
        table_of(self.entries@)
    }
}

/// The view of an optional list of characters.
pub open spec fn opt_view(o: Option<Vec<char>>) -> Option<Seq<char>> {
    match o {
        Some(v) => Some(v@),
        None => None,
    }
}

fn same(a: &[char], b: &[char]) -> (r: bool)
    ensures
        r == (a@ == b@),
{
    if a.len() != b.len() {
        return false;
    }
    let mut i: usize = 0;
    while i < a.len()
        invariant
            i <= a@.len(),
            a@.len() == b@.len(),
            a@.take(i as int) == b@.take(i as int),
        decreases a@.len() - i,
    {
        if a[i] != b[i] {
            return false;
        }
        assert(a@.take(i + 1) =~= a@.take(i as int).push(a@[i as int]));
        assert(b@.take(i + 1) =~= b@.take(i as int).push(b@[i as int]));
        i += 1;
    }
    assert(a@.take(a@.len() as int) =~= a@);
    assert(b@.take(b@.len() as int) =~= b@);
    true
}

impl Default for CssProperties {
    fn default() -> (r: CssProperties)
        ensures
            r@ == Map::<(Seq<char>, Seq<char>), int>::empty(),
    {
        CssProperties { entries: Vec::new() }
    }
}

impl CssProperties {
    /// The properties of one sheet.
    pub fn from_css(css: &str) -> (r: CssProperties)
        ensures
            r@ == sheet_table(css@, Map::empty()),
    {
        let mut props = CssProperties { entries: Vec::new() };
        props.parse_css(css);
        props
    }

    /// Reads another sheet over the properties collected so far: what it
    /// declares overrides them, and what it does not declare stays.
    pub fn merge_css(&mut self, css: &str)
        ensures
            final(self)@ == sheet_table(css@, old(self)@),
    {
        self.parse_css(css);
    }

    fn parse_css(&mut self, css: &str)
        ensures
            final(self)@ == sheet_table(css@, old(self)@),
    {
        let text = chars_of(css);
        let s = text.as_slice();
        let n: usize = s.len();
        let mut class: Option<Vec<char>> = None;
        let mut depth: usize = 0;
        let mut pos: usize = 0;
        assert(s@.skip(0) =~= s@);
        while pos < n
            invariant
                pos <= n,
                n == s@.len(),
                s@ == css@,
                depth <= pos,
                class is Some ==> depth >= 1,
                sheet_run(
                    (SheetState { class: opt_view(class), depth: depth as int, table: self@ }),
                    lines_of(s@.skip(pos as int)),
                ) == sheet_run(
                    (SheetState { class: None, depth: 0, table: old(self)@ }),
                    lines_of(s@),
                ),
            decreases n - pos,
        {
            let (e, next) = next_line(s, pos);
            let t = trim(slice_subrange(s, pos, e));
            proof {
                lemma_lines_step(s@.skip(pos as int));
            }
            if starts_with(t, ".") && contains_char(t, '{') {
                let end: usize = match find_either(t, ' ', '{') {
                    Some(i) => i,
                    None => 0,
                };
                let mut name: Vec<char> = Vec::new();
                if 1 <= end {
                    name.extend_from_slice(slice_subrange(t, 1, end));
                }
                assert(name@ =~= selector_class(t@));
                class = Some(name);
                depth = 1;
            } else if class.is_some() {
                if contains_char(t, '{') {
                    depth = depth + 1;
                }
                let mut closed = false;
                if contains_char(t, '}') {
                    depth = depth - 1;
                    closed = depth == 0;
                }
                if closed {
                    class = None;
                } else {
                    match read_declaration(t) {
                        Some(d) => {
                            let owner: Vec<char> = match &class {
                                Some(c) => c.clone(),
                                None => Vec::new(),
                            };
                            let ghost before = self.entries@;
                            let entry = CssEntry { class: owner, property: d.0, value: d.1 };
                            self.entries.push(entry);
                            assert(self.entries@.drop_last() =~= before);
                        },
                        None => {},
                    }
                }
            }
            pos = next;
        }
        assert(s@.skip(n as int) =~= Seq::<char>::empty());
    }

    /// The value of a property of a category, where a sheet declared it.
    pub fn get(&self, class: &str, property: &str) -> (r: Option<Num>)
        ensures
            match r {
                Some(v) => self@.contains_key((class@, property@)) && self@[(class@, property@)]
                    == v@,
                None => !self@.contains_key((class@, property@)),
            },
    {
        let c = chars_of(class);
        let p = chars_of(property);
        let mut i: usize = self.entries.len();
        assert(self.entries@.take(i as int) =~= self.entries@);
        while i > 0
            invariant
                i <= self.entries@.len(),
                c@ == class@,
                p@ == property@,
                table_of(self.entries@).contains_key((class@, property@)) == table_of(
                    self.entries@.take(i as int),
                ).contains_key((class@, property@)),
                table_of(self.entries@).contains_key((class@, property@)) ==> table_of(
                    self.entries@,
                )[(class@, property@)] == table_of(self.entries@.take(i as int))[(
                    class@,
                    property@,
                )],
            decreases i,
        {
            let entry = &self.entries[i - 1];
            assert(self.entries@.take(i as int).drop_last() =~= self.entries@.take(i - 1));
            assert(self.entries@.take(i as int).last() == self.entries@[i - 1]);
            if same(entry.class.as_slice(), c.as_slice()) && same(
                entry.property.as_slice(),
                p.as_slice(),
            ) {
                return Some(entry.value);
            }
            i -= 1;
        }
        None
    }

    /// The value of a property of a category, or `default` where no sheet
    /// declared it.
    pub fn get_or(&self, class: &str, property: &str, default: Num) -> (r: Num)
        ensures
            r@ == value_or(self@, class@, property@, default@),
    {
        match self.get(class, property) {
            Some(v) => v,
            None => default,
        }
    }
}

/// The value that a table gives to a property of a category, or `default`
/// where it gives none.
pub open spec fn value_or(table: Table, class: Seq<char>, property: Seq<char>, default: int) -> int {
    if table.contains_key((class, property)) {
        table[(class, property)]
    } else {
        default
    }
}

// ---------------------------------------------------------------------------
// The cascade
// ---------------------------------------------------------------------------

proof fn lemma_run_over(base: Table, st: SheetState, ls: Seq<Seq<char>>)
    ensures
        sheet_run(
            (SheetState { class: st.class, depth: st.depth, table: base.union_prefer_right(st.table) }),
            ls,
        ) == (SheetState {
            class: sheet_run(st, ls).class,
            depth: sheet_run(st, ls).depth,
            table: base.union_prefer_right(sheet_run(st, ls).table),
        }),
    decreases ls.len(),
{
    let over = SheetState {
        class: st.class,
        depth: st.depth,
        table: base.union_prefer_right(st.table),
    };
    if ls.len() > 0 {
        let next = sheet_step(st, ls[0]);
        let next_over = sheet_step(over, ls[0]);
        assert(next_over.class == next.class);
        assert(next_over.depth == next.depth);
        assert(next_over.table =~= base.union_prefer_right(next.table));
        lemma_run_over(base, next, ls.drop_first());
    }
}

/// The cascade. Reading a sheet over a table gives the table in which every
/// property that the sheet declares has the sheet's value and every other
/// property keeps the value it had: a later sheet overrides an earlier one
/// property by property.
pub proof fn cascade_overrides(css: Seq<char>, base: Table)
    ensures
        sheet_table(css, base) == base.union_prefer_right(sheet_table(css, Map::empty())),
{
    let empty = Map::<(Seq<char>, Seq<char>), int>::empty();
    let start = SheetState { class: None, depth: 0, table: empty };
    lemma_run_over(base, start, lines_of(css));
    assert(base.union_prefer_right(empty) =~= base);
}

/// The cascade, for one property: where the later sheet declares it, its
/// value there is the resolved value, whatever the earlier sheets said; where
/// it does not, the earlier value stands.
pub proof fn cascade_resolves(css: Seq<char>, base: Table, class: Seq<char>, property: Seq<char>)
    ensures
        sheet_table(css, Map::empty()).contains_key((class, property)) ==> sheet_table(
            css,
            base,
        ).contains_key((class, property)) && sheet_table(css, base)[(class, property)]
            == sheet_table(css, Map::empty())[(class, property)],
        !sheet_table(css, Map::empty()).contains_key((class, property)) ==> sheet_table(
            css,
            base,
        ).contains_key((class, property)) == base.contains_key((class, property)) && (
        base.contains_key((class, property)) ==> sheet_table(css, base)[(class, property)]
            == base[(class, property)]),
{
    cascade_overrides(css, base);
}

// ---------------------------------------------------------------------------
// One property, straight from the text of a sheet
// ---------------------------------------------------------------------------

/// The value that a line gives after the first occurrence of `decl`, where
/// it holds `decl` and a numeral follows.
pub open spec fn declared_value(t: Seq<char>, decl: Seq<char>) -> Option<int> {
    match index_of(t, decl) {
        Some(p) => if 0 <= p && p + decl.len() <= t.len() {
            decimal_value(value_text(t.skip(p + decl.len())))
        } else {
            None
        },
        None => None,
    }
}

/// The first value that the lines `ls` give for the declaration `decl` inside
/// a block whose selector line holds `sel`. `inside` and `depth` say whether
/// such a block is open and how deep its braces are nested.
pub open spec fn property_in(
    ls: Seq<Seq<char>>,
    sel: Seq<char>,
    decl: Seq<char>,
    inside: bool,
    depth: int,
) -> Option<int>
    decreases ls.len(),
{
    if ls.len() == 0 {
        None
    } else {
        let t = trimmed(ls[0]);
        if includes(t, sel) && char_index(t, '{') is Some {
            property_in(ls.drop_first(), sel, decl, true, 1)
        } else if inside {
            if closes(t, depth) {
                None
            } else {
                match declared_value(t, decl) {
                    Some(v) => Some(v),
                    None => property_in(ls.drop_first(), sel, decl, true, depth_after(t, depth)),
                }
            }
        } else {
            property_in(ls.drop_first(), sel, decl, false, depth)
        }
    }
}

/// The value of the custom property `property` in the first block of the
/// sheet whose selector line holds the category `class`.
pub open spec fn css_property(css: Seq<char>, class: Seq<char>, property: Seq<char>) -> Option<
    int,
> {
    property_in(lines_of(css), "."@ + class, "--"@ + property + ":"@, false, 0)
}

/// Looks one custom property of one category up in the text of a sheet.
pub fn extract_css_property(css: &str, class: &str, property: &str) -> (r: Option<Num>)
    ensures
        match r {
            Some(v) => css_property(css@, class@, property@) == Some(v@),
            None => css_property(css@, class@, property@) is None,
        },
{
    let mut sel = String::new();
    sel.append(".");
    sel.append(class);
    let mut decl = String::new();
    decl.append("--");
    decl.append(property);
    decl.append(":");
    proof {
        assert(sel@ =~= "."@ + class@);
        assert(decl@ =~= "--"@ + property@ + ":"@);
    }
    let m: usize = decl.as_str().unicode_len();
    let text = chars_of(css);
    let s = text.as_slice();
    let n: usize = s.len();
    let mut inside = false;
    let mut depth: usize = 0;
    let mut pos: usize = 0;
    assert(s@.skip(0) =~= s@);
    while pos < n
        invariant
            pos <= n,
            n == s@.len(),
            s@ == css@,
            m == decl@.len(),
            sel@ == "."@ + class@,
            decl@ == "--"@ + property@ + ":"@,
            depth <= pos,
            inside ==> depth >= 1,
            property_in(lines_of(s@.skip(pos as int)), sel@, decl@, inside, depth as int)
                == property_in(lines_of(s@), sel@, decl@, false, 0),
        decreases n - pos,
    {
        let (e, next) = next_line(s, pos);
        let t = trim(slice_subrange(s, pos, e));
        let tn: usize = t.len();
        proof {
            lemma_lines_step(s@.skip(pos as int));
        }
        if contains(t, sel.as_str()) && contains_char(t, '{') {
            inside = true;
            depth = 1;
        } else if inside {
            if contains_char(t, '{') {
                depth = depth + 1;
            }
            if contains_char(t, '}') {
                depth = depth - 1;
                if depth == 0 {
                    return None;
                }
            }
            match find(t, decl.as_str()) {
                Some(p) => {
                    let after = slice_subrange(t, p + m, tn);
                    assert(after@ =~= t@.skip(p + m));
                    match read_value(after) {
                        Some(v) => {
                            return Some(v);
                        },
                        None => {},
                    }
                },
                None => {},
            }
        }
        pos = next;
    }
    assert(s@.skip(n as int) =~= Seq::<char>::empty());
    None
}

} // verus!
