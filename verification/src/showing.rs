//! How conditions and expressions are shown: a condition and its denial read apart, an operator is
//! shown between its operands, and a tag says whether something came or went.

use crate::clauses::tag_of;
use crate::hook::part_of_joined;
use crate::ir::{BinOp, ExprView, LogicOp};
use crate::pred::{negation, pred_text, pred_texts, set_text, PredView};
use crate::text;
use crate::text::Text;
use crate::typing::{binary_sign, expr_text, logic_sign};
use vstd::prelude::*;

verus! {

/// A text begins with one text and ends with another, and between them stands a third.
pub open spec fn stands_between(s: Text, before: Text, x: Text, after: Text) -> bool {
    &&& s.len() == before.len() + x.len() + after.len()
    &&& s.take(before.len() as int) == before
    &&& s.subrange(before.len() as int, (before.len() + x.len()) as int) == x
    &&& s.skip((before.len() + x.len()) as int) == after
}

proof fn between(before: Text, x: Text, after: Text)
    ensures
        stands_between(before + x + after, before, x, after),
{
    let s = before + x + after;
    assert(s.take(before.len() as int) =~= before);
    assert(s.subrange(before.len() as int, (before.len() + x.len()) as int) =~= x);
    assert(s.skip((before.len() + x.len()) as int) =~= after);
}

// ---- conditions

/// A condition on the values of a field shows the field, whether it is one of the values, and the
/// values.
pub proof fn memberships_are_shown(field: Text, values: Seq<Text>)
    ensures
        stands_between(
            pred_text(PredView::In { field, values }),
            field,
            " ∈ "@,
            "{"@ + text::joined(values, ", "@) + "}"@,
        ),
        stands_between(
            pred_text(PredView::NotIn { field, values }),
            field,
            " ∉ "@,
            "{"@ + text::joined(values, ", "@) + "}"@,
        ),
        stands_between(pred_text(PredView::Truthy(field)), field, " is set"@, seq![]),
        stands_between(pred_text(PredView::Falsy(field)), field, " is not set"@, seq![]),
{
    between(field, " ∈ "@, set_text(values));
    between(field, " ∉ "@, set_text(values));
    between(field, " is set"@, seq![]);
    between(field, " is not set"@, seq![]);
    let none = Seq::<char>::empty();
    assert(field + " is set"@ + none =~= field + " is set"@);
    assert(field + " is not set"@ + none =~= field + " is not set"@);
}

/// A comparison shows its sign between its sides.
pub proof fn comparisons_are_shown(left: Text, op: Text, right: Text)
    ensures
        stands_between(
            pred_text(PredView::Compare { left, op, right }),
            left,
            " "@ + op + " "@,
            right,
        ),
{
    between(left, " "@ + op + " "@, right);
    assert(left + " "@ + op + " "@ + right =~= left + (" "@ + op + " "@) + right);
}

/// A condition of one part and its denial never read the same.
pub proof fn denials_read_apart(p: PredView)
    requires
        !(p is And) && !(p is Or) && !(p is Compare),
    ensures
        pred_text(negation(p)) != pred_text(p),
{
    match p {
        PredView::In { field, values } => {
            signs_apart(field, values);
        },
        PredView::NotIn { field, values } => {
            signs_apart(field, values);
        },
        PredView::Truthy(f) => {
            lengths_of_set();
            assert((f + " is set"@).len() != (f + " is not set"@).len());
        },
        PredView::Falsy(f) => {
            lengths_of_set();
            assert((f + " is set"@).len() != (f + " is not set"@).len());
        },
        PredView::Call { entity, negated } => {
            reveal_strlit("!");
            let n = text::after_last(entity, "::"@) + "()"@;
            assert(("!"@ + text::after_last(entity, "::"@) + "()"@).len() == n.len() + 1);
        },
        PredView::Opaque { text, negated } => {
            reveal_strlit("!(");
            reveal_strlit(")");
            assert(("!("@ + text + ")"@).len() == text.len() + 3);
        },
        PredView::True => {
            reveal_strlit("true");
            reveal_strlit("false");
            assert("true"@.len() != "false"@.len());
        },
        PredView::False => {
            reveal_strlit("true");
            reveal_strlit("false");
            assert("true"@.len() != "false"@.len());
        },
        _ => {},
    }
}

proof fn lengths_of_set()
    ensures
        " is set"@.len() != " is not set"@.len(),
{
    reveal_strlit(" is set");
    reveal_strlit(" is not set");
}

proof fn signs_apart(field: Text, values: Seq<Text>)
    ensures
        pred_text(PredView::In { field, values }) != pred_text(PredView::NotIn { field, values }),
{
    reveal_strlit(" ∈ ");
    reveal_strlit(" ∉ ");
    let at = field.len() as int + 1;
    let x = pred_text(PredView::In { field, values });
    let y = pred_text(PredView::NotIn { field, values });
    assert(" ∈ "@[1] != " ∉ "@[1]);
    assert(x[at] == " ∈ "@[1]);
    assert(y[at] == " ∉ "@[1]);
}

proof fn texts_are(ps: Seq<PredView>, i: int)
    requires
        0 <= i <= ps.len(),
    ensures
        pred_texts(ps, i).len() == ps.len() - i,
        forall|n: int|
            0 <= n < ps.len() - i ==> #[trigger] pred_texts(ps, i)[n] == pred_text(ps[i + n]),
    decreases ps.len() - i,
{
    if i < ps.len() {
        texts_are(ps, i + 1);
        let rest = pred_texts(ps, i + 1);
        let all = pred_texts(ps, i);
        assert forall|n: int| 0 <= n < ps.len() - i implies #[trigger] all[n] == pred_text(
            ps[i + n],
        ) by {
            if n > 0 {
                assert(all[n] == rest[n - 1]);
                assert(ps[i + 1 + (n - 1)] == ps[i + n]);
            }
        }
    }
}

/// A condition of several parts shows each of them; two parts are joined by the sign of the
/// connective.
pub proof fn parts_are_shown(ps: Seq<PredView>, k: int)
    requires
        0 <= k < ps.len(),
    ensures
        text::has_text(pred_text(PredView::And(ps)), pred_text(ps[k])),
        text::has_text(pred_text(PredView::Or(ps)), pred_text(ps[k])),
        ps.len() == 2 ==> stands_between(
            pred_text(PredView::And(ps)),
            pred_text(ps[0]),
            " ∧ "@,
            pred_text(ps[1]),
        ) && stands_between(
            pred_text(PredView::Or(ps)),
            pred_text(ps[0]),
            " ∨ "@,
            pred_text(ps[1]),
        ),
{
    texts_are(ps, 0);
    let parts = pred_texts(ps, 0);
    assert(parts[k] == pred_text(ps[0 + k]));
    part_of_joined(parts, " ∧ "@, 0, k);
    part_of_joined(parts, " ∨ "@, 0, k);
    if ps.len() == 2 {
        assert(parts[0] == pred_text(ps[0int + 0]));
        assert(parts[1] == pred_text(ps[0int + 1]));
        two_joined(parts, " ∧ "@);
        two_joined(parts, " ∨ "@);
        between(parts[0], " ∧ "@, parts[1]);
        between(parts[0], " ∨ "@, parts[1]);
    }
}

proof fn two_joined(parts: Seq<Text>, sep: Text)
    requires
        parts.len() == 2,
    ensures
        text::joined(parts, sep) == parts[0] + sep + parts[1],
{
    reveal_with_fuel(text::joined_from, 3);
    assert(text::joined(parts, sep) =~= parts[0] + sep + parts[1]);
}

// ---- expressions

/// An operator is shown between its operands, a negation in front of what it negates, and a
/// choice with its test, what holds then and what holds otherwise.
pub proof fn operators_are_shown(
    x: ExprView,
    y: ExprView,
    z: ExprView,
    op: BinOp,
    connective: LogicOp,
)
    ensures
        stands_between(
            expr_text(ExprView::Binary { op, left: Box::new(x), right: Box::new(y) }),
            expr_text(x),
            " "@ + binary_sign(op) + " "@,
            expr_text(y),
        ),
        stands_between(
            expr_text(ExprView::Logical { op: connective, left: Box::new(x), right: Box::new(y) }),
            expr_text(x),
            " "@ + logic_sign(connective) + " "@,
            expr_text(y),
        ),
        expr_text(ExprView::Not(Box::new(x))) != expr_text(x),
        stands_between(expr_text(ExprView::Not(Box::new(x))), seq![], "!"@, expr_text(x)),
        stands_between(
            expr_text(
                ExprView::Conditional {
                    test: Box::new(x),
                    then: Box::new(y),
                    otherwise: Box::new(z),
                },
            ),
            expr_text(x) + " ? "@,
            expr_text(y),
            " : "@ + expr_text(z),
        ),
{
    let (l, r, o) = (expr_text(x), expr_text(y), expr_text(z));
    between(l, " "@ + binary_sign(op) + " "@, r);
    assert(l + " "@ + binary_sign(op) + " "@ + r =~= l + (" "@ + binary_sign(op) + " "@) + r);
    between(l, " "@ + logic_sign(connective) + " "@, r);
    assert(l + " "@ + logic_sign(connective) + " "@ + r =~= l + (" "@ + logic_sign(connective) + " "@)
        + r);
    let none = Seq::<char>::empty();
    between(none, "!"@, l);
    assert(none + "!"@ + l =~= "!"@ + l);
    reveal_strlit("!");
    assert(("!"@ + l).len() == l.len() + 1);
    between(l + " ? "@, r, " : "@ + o);
    assert(l + " ? "@ + r + " : "@ + o =~= (l + " ? "@) + r + (" : "@ + o));
}

// ---- tags

/// A word of what came.
pub open spec fn says_gain(tag: Text) -> bool {
    text::has_text(tag, "new"@) || text::has_text(tag, "fewer"@) || text::has_text(tag, "now "@)
}

/// A word of what went.
pub open spec fn says_loss(tag: Text) -> bool {
    text::has_text(tag, "dropped"@) || text::has_text(tag, "removed"@) || text::has_text(
        tag,
        "no longer"@,
    ) || text::has_text(tag, "more"@)
}

/// The rows whose items are tagged.
pub open spec fn is_tagged_row(row: Text) -> bool {
    ||| row == "who"@
    ||| row == "returns"@
    ||| row == "takes"@
    ||| row == "renders"@
    ||| row == "pre"@
    ||| row == "where"@
    ||| row == "post"@
    ||| row == "effects"@
}

proof fn word_at(tag: Text, word: Text, at: int)
    requires
        0 <= at,
        at + word.len() <= tag.len(),
        tag.subrange(at, at + word.len()) == word,
    ensures
        text::has_text(tag, word),
{
    assert(text::occurs_at(tag, word, at));
}

/// The tag of an item that came says so, and the tag of one that went.
pub proof fn tags_say_what_happened(row: Text, before: Option<Text>, after: Option<Text>)
    requires
        is_tagged_row(row),
    ensures
        tag_of(row, '+', before, after) matches Some(t) && says_gain(t),
        tag_of(row, '-', before, after) matches Some(t) && says_loss(t),
        tag_of(row, ' ', before, after) is None,
{
    reveal_strlit("new");
    reveal_strlit("fewer");
    reveal_strlit("now ");
    reveal_strlit("dropped");
    reveal_strlit("removed");
    reveal_strlit("no longer");
    reveal_strlit("more");
    reveal_strlit("new requirement");
    assert("new requirement"@.subrange(0, 3) =~= "new"@);
    word_at("new requirement"@, "new"@, 0);
    reveal_strlit("requirement dropped");
    assert("requirement dropped"@.subrange(12, 19) =~= "dropped"@);
    word_at("requirement dropped"@, "dropped"@, 12);
    reveal_strlit("new output case");
    assert("new output case"@.subrange(0, 3) =~= "new"@);
    word_at("new output case"@, "new"@, 0);
    reveal_strlit("output case removed");
    assert("output case removed"@.subrange(12, 19) =~= "removed"@);
    word_at("output case removed"@, "removed"@, 12);
    reveal_strlit("new parameter");
    assert("new parameter"@.subrange(0, 3) =~= "new"@);
    word_at("new parameter"@, "new"@, 0);
    reveal_strlit("parameter removed");
    assert("parameter removed"@.subrange(10, 17) =~= "removed"@);
    word_at("parameter removed"@, "removed"@, 10);
    reveal_strlit("now rendered");
    assert("now rendered"@.subrange(0, 4) =~= "now "@);
    word_at("now rendered"@, "now "@, 0);
    reveal_strlit("no longer rendered");
    assert("no longer rendered"@.subrange(0, 9) =~= "no longer"@);
    word_at("no longer rendered"@, "no longer"@, 0);
    reveal_strlit("new check");
    assert("new check"@.subrange(0, 3) =~= "new"@);
    word_at("new check"@, "new"@, 0);
    reveal_strlit("check dropped");
    assert("check dropped"@.subrange(6, 13) =~= "dropped"@);
    word_at("check dropped"@, "dropped"@, 6);
    reveal_strlit("reaches fewer rows");
    assert("reaches fewer rows"@.subrange(8, 13) =~= "fewer"@);
    word_at("reaches fewer rows"@, "fewer"@, 8);
    reveal_strlit("reaches more rows");
    assert("reaches more rows"@.subrange(8, 12) =~= "more"@);
    word_at("reaches more rows"@, "more"@, 8);
    reveal_strlit("new write");
    assert("new write"@.subrange(0, 3) =~= "new"@);
    word_at("new write"@, "new"@, 0);
    reveal_strlit("no longer written");
    assert("no longer written"@.subrange(0, 9) =~= "no longer"@);
    word_at("no longer written"@, "no longer"@, 0);
    reveal_strlit("new effect");
    assert("new effect"@.subrange(0, 3) =~= "new"@);
    word_at("new effect"@, "new"@, 0);
    reveal_strlit("effect dropped");
    assert("effect dropped"@.subrange(7, 14) =~= "dropped"@);
    word_at("effect dropped"@, "dropped"@, 7);
}

} // verus!
