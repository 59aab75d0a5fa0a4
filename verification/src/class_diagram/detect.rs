//! Telling a class diagram from a sequence diagram by the first line that
//! is typical of either.

use crate::text::{
    char_index, chars_of, contains, contains_char, includes, has_prefix, lemma_lines_step, lines_of,
    next_line, starts_with, trim, trimmed,
};
use vstd::prelude::*;
use vstd::slice::slice_subrange;

verus! {

/// A line that only a class diagram holds: a header of an entity, or one of
/// the tokens of a hierarchy or of a whole and its part.
pub open spec fn class_marker(t: Seq<char>) -> bool {
    ||| has_prefix(t, "class "@)
    ||| has_prefix(t, "interface "@)
    ||| has_prefix(t, "abstract "@)
    ||| has_prefix(t, "enum "@)
    ||| includes(t, "--|>"@)
    ||| includes(t, "<|--"@)
    ||| includes(t, "..|>"@)
    ||| includes(t, "<|.."@)
    ||| includes(t, "*--"@)
    ||| includes(t, "--*"@)
    ||| includes(t, "o--"@)
    ||| includes(t, "--o"@)
}

/// A line that only a sequence diagram holds: the declaration of a
/// participant, or a message with its text.
pub open spec fn sequence_marker(t: Seq<char>) -> bool {
    ||| has_prefix(t, "participant "@)
    ||| has_prefix(t, "actor "@)
    ||| (includes(t, "->"@) && char_index(t, ':') is Some && !includes(t, "--|>"@))
}

/// The first line that is typical of a kind of diagram is typical of a class
/// diagram.
pub open spec fn class_lines(ls: Seq<Seq<char>>) -> bool
    decreases ls.len(),
{
    if ls.len() == 0 {
        false
    } else if class_marker(trimmed(ls[0])) {
        true
    } else if sequence_marker(trimmed(ls[0])) {
        false
    } else {
        class_lines(ls.drop_first())
    }
}

/// The source text describes a class diagram.
pub open spec fn describes_classes(source: Seq<char>) -> bool {
    class_lines(lines_of(source))
}

fn holds_class_marker(t: &[char]) -> (b: bool)
    ensures
        b == class_marker(t@),
{
    starts_with(t, "class ") || starts_with(t, "interface ") || starts_with(t, "abstract ")
        || starts_with(t, "enum ") || contains(t, "--|>") || contains(t, "<|--") || contains(
        t,
        "..|>",
    ) || contains(t, "<|..") || contains(t, "*--") || contains(t, "--*") || contains(t, "o--")
        || contains(t, "--o")
}

fn holds_sequence_marker(t: &[char]) -> (b: bool)
    ensures
        b == sequence_marker(t@),
{
    starts_with(t, "participant ") || starts_with(t, "actor ") || (contains(t, "->")
        && contains_char(t, ':') && !contains(t, "--|>"))
}

/// Whether a source text looks like a class diagram.
pub fn is_class_diagram(source: &str) -> (b: bool)
    ensures
        b == describes_classes(source@),
{
    let text = chars_of(source);
    let s = text.as_slice();
    let n: usize = s.len();
    let mut pos: usize = 0;
    assert(s@.skip(0) =~= s@);
    while pos < n
        invariant
            pos <= n,
            n == s@.len(),
            s@ == source@,
            class_lines(lines_of(s@.skip(pos as int))) == class_lines(lines_of(s@)),
        decreases n - pos,
    {
        let (e, next) = next_line(s, pos);
        let t = trim(slice_subrange(s, pos, e));
        proof {
            lemma_lines_step(s@.skip(pos as int));
        }
        if holds_class_marker(t) {
            return true;
        }
        if holds_sequence_marker(t) {
            return false;
        }
        pos = next;
    }
    assert(s@.skip(n as int) =~= Seq::<char>::empty());
    false
}

} // verus!
