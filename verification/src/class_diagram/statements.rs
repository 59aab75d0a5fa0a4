//! Relationship lines as they are written: two operands with a token
//! between them. A line that is written so is read back as it was written,
//! and the two ways to write one relationship are read alike.

use crate::class_diagram::model::{RelationType, RelationshipView};
use crate::class_diagram::parser::{
    label_of, left_operand, left_pointing, parsed_relation, relation_by, relation_from,
    right_operand, right_part, tidy, token_count, token_kind, token_text,
};
use crate::text::{
    char_index, index_of, is_space, lemma_char_index_from, lemma_first_occurrence, lemma_index_of,
    lemma_occurrence_char, lemma_trimmed_end_space, lemma_trimmed_same, occurs_at, trimmed,
    trimmed_end, trimmed_start,
};
use vstd::prelude::*;

verus! {

/// A text that can stand for an operand: not empty, without white space at
/// its ends, and without a hyphen, a full stop or a colon.
pub open spec fn operand(a: Seq<char>) -> bool {
    &&& a.len() > 0
    &&& tidy(a)
    &&& forall|i: int| 0 <= i < a.len() ==> a[i] != '-' && a[i] != '.' && a[i] != ':'
}

/// The line that states a relationship: the left operand, a blank, the
/// token, a blank, and the right operand.
pub open spec fn statement(a: Seq<char>, token: Seq<char>, b: Seq<char>) -> Seq<char> {
    a + seq![' '] + token + seq![' '] + b
}

/// The relationship that token `i` between `a` and `b` stands for.
pub open spec fn stated(a: Seq<char>, b: Seq<char>, i: int) -> RelationshipView {
    if left_pointing(token_text(i)) {
        RelationshipView { from: b, to: a, rel_type: token_kind(i), label: None }
    } else {
        RelationshipView { from: a, to: b, rel_type: token_kind(i), label: None }
    }
}

/// The token of the same kind that points the other way, for the tokens
/// that come in such pairs.
pub open spec fn mirrored(i: int) -> int {
    if i == 0 {
        1
    } else if i == 1 {
        0
    } else if i == 2 {
        3
    } else if i == 3 {
        2
    } else if i == 8 {
        9
    } else if i == 9 {
        8
    } else if i == 10 {
        11
    } else {
        10
    }
}

/// Token `i` is one of a pair that points either way.
pub open spec fn paired(i: int) -> bool {
    i == 0 || i == 1 || i == 2 || i == 3 || i == 8 || i == 9 || i == 10 || i == 11
}

/// A character that an operand does not hold and every token does: a hyphen
/// or a full stop.
pub open spec fn mark(c: char) -> bool {
    c == '-' || c == '.'
}

/// The characters of each token.
proof fn lemma_tokens()
    ensures
        token_text(0) == seq!['-', '-', '|', '>'],
        token_text(1) == seq!['<', '|', '-', '-'],
        token_text(2) == seq!['.', '.', '|', '>'],
        token_text(3) == seq!['<', '|', '.', '.'],
        token_text(4) == seq!['*', '-', '-'],
        token_text(5) == seq!['-', '-', '*'],
        token_text(6) == seq!['o', '-', '-'],
        token_text(7) == seq!['-', '-', 'o'],
        token_text(8) == seq!['.', '.', '>'],
        token_text(9) == seq!['<', '.', '.'],
        token_text(10) == seq!['-', '-', '>'],
        token_text(11) == seq!['<', '-', '-'],
        token_text(12) == seq!['-', '-'],
{
    reveal_strlit("--|>");
    reveal_strlit("<|--");
    reveal_strlit("..|>");
    reveal_strlit("<|..");
    reveal_strlit("*--");
    reveal_strlit("--*");
    reveal_strlit("o--");
    reveal_strlit("--o");
    reveal_strlit("..>");
    reveal_strlit("<..");
    reveal_strlit("-->");
    reveal_strlit("<--");
    reveal_strlit("--");
    assert(token_text(0) =~= seq!['-', '-', '|', '>']);
    assert(token_text(1) =~= seq!['<', '|', '-', '-']);
    assert(token_text(2) =~= seq!['.', '.', '|', '>']);
    assert(token_text(3) =~= seq!['<', '|', '.', '.']);
    assert(token_text(4) =~= seq!['*', '-', '-']);
    assert(token_text(5) =~= seq!['-', '-', '*']);
    assert(token_text(6) =~= seq!['o', '-', '-']);
    assert(token_text(7) =~= seq!['-', '-', 'o']);
    assert(token_text(8) =~= seq!['.', '.', '>']);
    assert(token_text(9) =~= seq!['<', '.', '.']);
    assert(token_text(10) =~= seq!['-', '-', '>']);
    assert(token_text(11) =~= seq!['<', '-', '-']);
    assert(token_text(12) =~= seq!['-', '-']);
}

/// A token holds no blank, holds a hyphen or a full stop, and is no shorter
/// than the tokens behind it; no two tokens are alike.
proof fn lemma_token(i: int)
    requires
        0 <= i < token_count(),
    ensures
        2 <= token_text(i).len() <= 4,
        forall|k: int| 0 <= k < token_text(i).len() ==> token_text(i)[k] != ' ',
        exists|k: int| 0 <= k < token_text(i).len() && mark(#[trigger] token_text(i)[k]),
        forall|j: int| i < j < token_count() ==> token_text(i).len() >= token_text(j).len(),
        forall|j: int| 0 <= j < token_count() && j != i ==> token_text(i) != token_text(j),
        left_pointing(token_text(i)) <==> (i == 1 || i == 3 || i == 9 || i == 11),
{
    lemma_tokens();
    let t = token_text(i);
    assert(mark(t[0]) || mark(t[1]) || (t.len() > 2 && mark(t[2])));
    assert forall|j: int| 0 <= j < token_count() && j != i implies token_text(i) != token_text(
        j,
    ) by {
        let u = token_text(j);
        if t == u {
            assert(t.len() == u.len());
            assert(t[0] == u[0]);
            assert(t[1] == u[1]);
            if t.len() > 2 {
                assert(t[2] == u[2]);
            }
        }
    }
}

/// Where a token stands in a statement, it stands inside the token of the
/// statement: the operands hold no hyphen and no full stop, and the token
/// holds no blank.
proof fn lemma_inside(a: Seq<char>, x: Seq<char>, b: Seq<char>, t: Seq<char>, j: int)
    requires
        operand(a),
        operand(b),
        forall|k: int| 0 <= k < t.len() ==> t[k] != ' ',
        exists|k: int| 0 <= k < t.len() && mark(#[trigger] t[k]),
        occurs_at(statement(a, x, b), t, j),
    ensures
        a.len() + 1 <= j,
        j + t.len() <= a.len() + 1 + x.len(),
        occurs_at(x, t, j - a.len() - 1),
{
    let line = statement(a, x, b);
    let n = a.len() as int;
    let e = n + 1 + x.len();
    let o = choose|k: int| 0 <= k < t.len() && mark(#[trigger] t[k]);
    lemma_occurrence_char(line, t, j, o);
    assert(line[n] == ' ');
    assert(line[e] == ' ');
    assert(n < j + o < e) by {
        if j + o < n {
            assert(line[j + o] == a[j + o]);
        }
        if j + o > e {
            assert(line[j + o] == b[j + o - e - 1]);
        }
    }
    if j <= n {
        lemma_occurrence_char(line, t, j, n - j);
    }
    if j + t.len() > e {
        lemma_occurrence_char(line, t, j, e - j);
    }
    assert(x.subrange(j - n - 1, j - n - 1 + t.len()) =~= line.subrange(j, j + t.len()));
}

/// A statement holds no token that comes before its own.
proof fn lemma_no_earlier_token(a: Seq<char>, b: Seq<char>, i: int, k: int)
    requires
        operand(a),
        operand(b),
        0 <= k < i < token_count(),
    ensures
        index_of(statement(a, token_text(i), b), token_text(k)) is None,
{
    let line = statement(a, token_text(i), b);
    let x = token_text(i);
    let t = token_text(k);
    lemma_token(i);
    lemma_token(k);
    lemma_index_of(line, t);
    if index_of(line, t) is Some {
        let j = index_of(line, t)->0;
        lemma_inside(a, x, b, t, j);
        assert(t.len() == x.len());
        assert(x.subrange(0, x.len() as int) =~= x);
    }
}

proof fn lemma_later_token(line: Seq<char>, i: int, k: int)
    requires
        0 <= k <= i < token_count(),
        forall|q: int| 0 <= q < i ==> relation_by(line, token_text(q), token_kind(q)) is None,
    ensures
        relation_from(line, k) == relation_from(line, i),
    decreases i - k,
{
    if k < i {
        lemma_later_token(line, i, k + 1);
    }
}

/// A statement is read as it was written: the relationship that a line of
/// two operands and a token states is the one that the token stands for
/// between them, without a label.
pub proof fn statement_is_read_as_written(a: Seq<char>, b: Seq<char>, i: int)
    requires
        operand(a),
        operand(b),
        0 <= i < token_count(),
    ensures
        parsed_relation(statement(a, token_text(i), b)) == Some(stated(a, b, i)),
{
    let x = token_text(i);
    let line = statement(a, x, b);
    let n = a.len() as int;
    lemma_token(i);
    assert forall|q: int| 0 <= q < i implies relation_by(line, token_text(q), token_kind(q))
        is None by {
        lemma_no_earlier_token(a, b, i, q);
    }
    lemma_later_token(line, i, 0);
    // The token stands behind the left operand and nowhere before.
    assert(occurs_at(line, x, n + 1)) by {
        assert(line.subrange(n + 1, n + 1 + x.len()) =~= x);
    }
    assert forall|j: int| 0 <= j < n + 1 implies !occurs_at(line, x, j) by {
        if occurs_at(line, x, j) {
            lemma_inside(a, x, b, x, j);
        }
    }
    lemma_first_occurrence(line, x, 0, n + 1);
    // The operands are what stands on either side of it.
    assert(line.take(n + 1) =~= a.push(' '));
    assert(trimmed_start(a.push(' ')) == a.push(' ')) by {
        assert(a.push(' ')[0] == a[0]);
    }
    lemma_trimmed_end_space(a, ' ');
    lemma_trimmed_same(a);
    assert(left_operand(line, n + 1) == a);
    let after = line.skip(n + 1 + x.len());
    assert(after =~= seq![' '] + b);
    assert(after.drop_first() =~= b);
    assert(trimmed_start(after) == trimmed_start(b));
    lemma_trimmed_same(b);
    assert(right_part(line, x, n + 1) == b);
    lemma_char_index_from(b, ':', 0);
    assert(char_index(b, ':') is None);
    assert(right_operand(b) == b);
    assert(label_of(b) is None);
}

/// The two ways to write a relationship are read alike: a statement with a
/// token that points one way, and the statement with the operands changed
/// round and the token that points the other way, state one relationship.
pub proof fn mirrored_statements_agree(a: Seq<char>, b: Seq<char>, i: int)
    requires
        operand(a),
        operand(b),
        paired(i),
    ensures
        parsed_relation(statement(a, token_text(i), b)) == parsed_relation(
            statement(b, token_text(mirrored(i)), a),
        ),
{
    statement_is_read_as_written(a, b, i);
    statement_is_read_as_written(b, a, mirrored(i));
    lemma_token(i);
    lemma_token(mirrored(i));
}

} // verus!
