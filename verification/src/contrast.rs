//! How two versions of a contract are compared: every item of either version is accounted for by a
//! clause, the mark of a clause says on which side its item stands, and what loosens a contract
//! is read before what does not.

use crate::clauses::{
    clause_of, compared, in_row, is_item_row, is_untyped, key_at, lost_from, row_clauses, row_compared,
    text_at, twins_from, ClauseView, ContractDiffView, ItemView,
};
use crate::contract::read_first;
use crate::text::Text;
use vstd::prelude::*;

verus! {

// ---- marks

/// The mark of a clause says on which side its item stands: `+` on the new one alone, `-` on the
/// old one alone, `~` on both with another text, and a blank on both with one text.
pub open spec fn is_rightly_marked(c: ClauseView) -> bool {
    ||| c.mark == '+' && c.before is None && c.after is Some
    ||| c.mark == '-' && c.before is Some && c.after is None
    ||| c.mark == '~' && c.before is Some && c.after is Some
    ||| c.mark == ' ' && c.before is None && c.after is Some
}

/// A clause speaks of an old item with this text.
pub open spec fn speaks_of_old(c: ClauseView, x: Text) -> bool {
    c.before == Some(x) || (c.mark == ' ' && c.after == Some(x))
}

/// An item has this text.
pub open spec fn has_text(items: Seq<ItemView>, x: Text) -> bool {
    exists|i: int| 0 <= i < items.len() && (#[trigger] items[i]).text == x
}

/// What a clause says of a row is so: its mark is right, its texts are those of items, and one
/// that is unchanged has its text in both versions.
pub open spec fn is_true_clause(
    c: ClauseView,
    row: Text,
    before: Seq<ItemView>,
    after: Seq<ItemView>,
) -> bool {
    &&& c.row == row
    &&& is_rightly_marked(c)
    &&& c.after matches Some(x) ==> has_text(after, x)
    &&& c.before matches Some(x) ==> has_text(before, x)
    &&& c.mark == ' ' ==> has_text(before, c.after->0)
}

proof fn text_at_is(items: Seq<ItemView>, x: Text, i: int)
    requires
        0 <= i,
    ensures
        text_at(items, x, i) matches Some(k) ==> i <= k < items.len() && items[k].text == x,
    decreases items.len() - i,
{
    if i < items.len() {
        text_at_is(items, x, i + 1);
    }
}

proof fn key_at_is(items: Seq<ItemView>, x: Text, i: int)
    requires
        0 <= i,
    ensures
        key_at(items, x, i) matches Some(k) ==> i <= k < items.len() && items[k].key == x,
    decreases items.len() - i,
{
    if i < items.len() {
        key_at_is(items, x, i + 1);
    }
}

proof fn removed_item(items: Seq<ItemView>, k: int)
    requires
        0 <= k < items.len(),
    ensures
        forall|y: ItemView| #[trigger] items.contains(y) ==> y == items[k] || items.remove(k).contains(y),
        forall|y: ItemView| #[trigger] items.remove(k).contains(y) ==> items.contains(y),
{
    let rest = items.remove(k);
    assert forall|y: ItemView| #[trigger] items.contains(y) implies y == items[k] || rest.contains(y) by {
        let i = choose|i: int| 0 <= i < items.len() && items[i] == y;
        if i < k {
            assert(rest[i] == y);
        } else if i > k {
            assert(rest[i - 1] == y);
        }
    }
    assert forall|y: ItemView| #[trigger] rest.contains(y) implies items.contains(y) by {
        let i = choose|i: int| 0 <= i < rest.len() && rest[i] == y;
        if i < k {
            assert(items[i] == y);
        } else {
            assert(items[i + 1] == y);
        }
    }
}

proof fn twins_are(left: Seq<ItemView>, after: Seq<ItemView>, i: int)
    requires
        0 <= i <= after.len(),
    ensures
        ({
            let (twins, rest) = twins_from(left, after, i);
            &&& twins.len() == after.len() - i
            &&& forall|n: int|
                0 <= n < twins.len() && (#[trigger] twins[n]) is Some ==> twins[n]->0.text == after[i
                    + n].text && left.contains(twins[n]->0)
            &&& forall|y: ItemView|
                #[trigger] left.contains(y) ==> rest.contains(y) || is_twin(twins, y)
            &&& forall|y: ItemView| #[trigger] rest.contains(y) ==> left.contains(y)
        }),
    decreases after.len() - i,
{
    if i < after.len() {
        text_at_is(left, after[i].text, 0);
        let (twins, rest) = twins_from(left, after, i);
        match text_at(left, after[i].text, 0) {
            Some(p) => {
                removed_item(left, p);
                twins_are(left.remove(p), after, i + 1);
                let (more, end) = twins_from(left.remove(p), after, i + 1);
                assert(twins == seq![Some(left[p])] + more && rest == end);
                assert(twins[0] == Some(left[p]));
                assert(left.contains(left[p]));
                assert forall|n: int|
                    0 <= n < twins.len() && (#[trigger] twins[n]) is Some implies twins[n]->0.text
                    == after[i + n].text && left.contains(twins[n]->0) by {
                    if n > 0 {
                        assert(twins[n] == more[n - 1]);
                        assert(left.remove(p).contains(more[n - 1]->0));
                    }
                }
                assert forall|y: ItemView| #[trigger] left.contains(y) implies rest.contains(y)
                    || is_twin(twins, y) by {
                    if y != left[p] {
                        assert(left.remove(p).contains(y));
                        if is_twin(more, y) {
                            let n = choose|n: int| 0 <= n < more.len() && #[trigger] more[n] == Some(y);
                            assert(twins[n + 1] == Some(y));
                        }
                    }
                }
            },
            None => {
                twins_are(left, after, i + 1);
                let (more, end) = twins_from(left, after, i + 1);
                assert(twins == seq![None::<ItemView>] + more && rest == end);
                assert forall|n: int|
                    0 <= n < twins.len() && (#[trigger] twins[n]) is Some implies twins[n]->0.text
                    == after[i + n].text && left.contains(twins[n]->0) by {
                    assert(n > 0);
                    assert(twins[n] == more[n - 1]);
                }
                assert forall|y: ItemView| #[trigger] left.contains(y) implies rest.contains(y)
                    || is_twin(twins, y) by {
                    if is_twin(more, y) {
                        let n = choose|n: int| 0 <= n < more.len() && #[trigger] more[n] == Some(y);
                        assert(twins[n + 1] == Some(y));
                    }
                }
            },
        }
    }
}

spec fn is_twin(twins: Seq<Option<ItemView>>, y: ItemView) -> bool {
    exists|n: int| 0 <= n < twins.len() && #[trigger] twins[n] == Some(y)
}

/// Some clause says of the new version that it has this text.
pub open spec fn is_new_said(cs: Seq<ClauseView>, x: Text) -> bool {
    exists|j: int| 0 <= j < cs.len() && (#[trigger] cs[j]).after == Some(x)
}

/// Some clause says of the old version that it had this text.
pub open spec fn is_old_said(cs: Seq<ClauseView>, x: Text) -> bool {
    exists|j: int| 0 <= j < cs.len() && speaks_of_old(#[trigger] cs[j], x)
}

proof fn said_on(c: ClauseView, rest: Seq<ClauseView>, x: Text)
    ensures
        c.after == Some(x) || is_new_said(rest, x) ==> is_new_said(seq![c] + rest, x),
        speaks_of_old(c, x) || is_old_said(rest, x) ==> is_old_said(seq![c] + rest, x),
{
    let all = seq![c] + rest;
    assert(all[0] == c);
    if is_new_said(rest, x) {
        let j = choose|j: int| 0 <= j < rest.len() && (#[trigger] rest[j]).after == Some(x);
        assert(all[j + 1] == rest[j]);
    }
    if is_old_said(rest, x) {
        let j = choose|j: int| 0 <= j < rest.len() && speaks_of_old(#[trigger] rest[j], x);
        assert(all[j + 1] == rest[j]);
    }
}

proof fn lost_are_said(row: Text, left: Seq<ItemView>, i: int, k: int)
    requires
        0 <= i <= k < left.len(),
    ensures
        is_old_said(lost_from(row, left, i), left[k].text),
    decreases k - i,
{
    said_on(
        clause_of(row, '-', Some(left[i]), None),
        lost_from(row, left, i + 1),
        left[k].text,
    );
    if i < k {
        lost_are_said(row, left, i + 1, k);
    }
}

proof fn lost_are_so(row: Text, left: Seq<ItemView>, i: int, after: Seq<ItemView>, before: Seq<ItemView>)
    requires
        0 <= i,
        forall|y: ItemView| #[trigger] left.contains(y) ==> before.contains(y),
    ensures
        forall|j: int|
            0 <= j < lost_from(row, left, i).len() ==> is_true_clause(
                #[trigger] lost_from(row, left, i)[j],
                row,
                before,
                after,
            ),
    decreases left.len() - i,
{
    if i < left.len() {
        lost_are_so(row, left, i + 1, after, before);
        let rest = lost_from(row, left, i + 1);
        let all = lost_from(row, left, i);
        assert(left.contains(left[i]));
        contained_text(before, left[i]);
        assert forall|j: int| 0 <= j < all.len() implies is_true_clause(
            #[trigger] all[j],
            row,
            before,
            after,
        ) by {
            if j > 0 {
                assert(all[j] == rest[j - 1]);
            }
        }
    }
}

proof fn contained_text(items: Seq<ItemView>, y: ItemView)
    requires
        items.contains(y),
    ensures
        has_text(items, y.text),
{
    let i = choose|i: int| 0 <= i < items.len() && items[i] == y;
    assert(items[i].text == y.text);
}

proof fn clauses_are(
    row: Text,
    left: Seq<ItemView>,
    after: Seq<ItemView>,
    twins: Seq<Option<ItemView>>,
    i: int,
    before: Seq<ItemView>,
)
    requires
        0 <= i <= after.len(),
        twins.len() == after.len(),
        forall|y: ItemView| #[trigger] left.contains(y) ==> before.contains(y),
        forall|n: int|
            0 <= n < twins.len() && (#[trigger] twins[n]) is Some ==> twins[n]->0.text
                == after[n].text && before.contains(twins[n]->0),
    ensures
        ({
            let cs = row_clauses(row, left, after, twins, i);
            &&& forall|j: int|
                0 <= j < cs.len() ==> is_true_clause(#[trigger] cs[j], row, before, after)
            &&& forall|n: int| i <= n < after.len() ==> is_new_said(cs, (#[trigger] after[n]).text)
            &&& forall|y: ItemView| #[trigger] left.contains(y) ==> is_old_said(cs, y.text)
            &&& forall|n: int|
                i <= n < twins.len() && (#[trigger] twins[n]) is Some ==> is_old_said(
                    cs,
                    twins[n]->0.text,
                )
        }),
    decreases after.len() - i,
{
    let cs = row_clauses(row, left, after, twins, i);
    if i < after.len() {
        let b = after[i];
        assert(has_text(after, b.text)) by {
            assert(after[i].text == b.text);
        }
        key_at_is(left, b.key, 0);
        let (c, next) = match twins[i] {
            Some(a) => {
                contained_text(before, a);
                (clause_of(row, ' ', Some(a), Some(b)), left)
            },
            None => match key_at(left, b.key, 0) {
                Some(p) => {
                    removed_item(left, p);
                    assert(left.contains(left[p]));
                    contained_text(before, left[p]);
                    (clause_of(row, '~', Some(left[p]), Some(b)), left.remove(p))
                },
                None => (clause_of(row, '+', None, Some(b)), left),
            },
        };
        clauses_are(row, next, after, twins, i + 1, before);
        let rest = row_clauses(row, next, after, twins, i + 1);
        assert(cs == seq![c] + rest);
        assert(is_true_clause(c, row, before, after));
        assert forall|j: int| 0 <= j < cs.len() implies is_true_clause(
            #[trigger] cs[j],
            row,
            before,
            after,
        ) by {
            if j > 0 {
                assert(cs[j] == rest[j - 1]);
            }
        }
        assert forall|n: int| i <= n < after.len() implies is_new_said(cs, (#[trigger] after[n]).text) by {
            said_on(c, rest, after[n].text);
        }
        assert forall|y: ItemView| #[trigger] left.contains(y) implies is_old_said(cs, y.text) by {
            said_on(c, rest, y.text);
        }
        assert forall|n: int| i <= n < twins.len() && (#[trigger] twins[n]) is Some implies is_old_said(
            cs,
            twins[n]->0.text,
        ) by {
            said_on(c, rest, twins[n]->0.text);
        }
    } else {
        lost_are_so(row, left, 0, after, before);
        assert forall|y: ItemView| #[trigger] left.contains(y) implies is_old_said(cs, y.text) by {
            let k = choose|k: int| 0 <= k < left.len() && left[k] == y;
            lost_are_said(row, left, 0, k);
        }
    }
}

/// Every item of either version is accounted for in its row, and what each clause says is so.
pub proof fn rows_account_for_items(row: Text, before: Seq<ItemView>, after: Seq<ItemView>)
    ensures
        ({
            let cs = row_compared(row, before, after);
            let a = in_row(before, row, 0);
            let b = in_row(after, row, 0);
            &&& forall|j: int| 0 <= j < cs.len() ==> is_true_clause(#[trigger] cs[j], row, a, b)
            &&& forall|n: int| 0 <= n < b.len() ==> is_new_said(cs, (#[trigger] b[n]).text)
            &&& forall|n: int| 0 <= n < a.len() ==> is_old_said(cs, (#[trigger] a[n]).text)
        }),
{
    let a = in_row(before, row, 0);
    let b = in_row(after, row, 0);
    twins_are(a, b, 0);
    let (twins, left) = twins_from(a, b, 0);
    assert forall|n: int| 0 <= n < twins.len() && (#[trigger] twins[n]) is Some implies twins[n]->0.text
        == b[n].text && a.contains(twins[n]->0) by {
        assert(b[0 + n] == b[n]);
    }
    clauses_are(row, left, b, twins, 0, a);
    let cs = row_compared(row, before, after);
    assert forall|n: int| 0 <= n < a.len() implies is_old_said(cs, (#[trigger] a[n]).text) by {
        assert(a.contains(a[n]));
        if !left.contains(a[n]) {
            let k = choose|k: int| 0 <= k < twins.len() && #[trigger] twins[k] == Some(a[n]);
            assert(twins[k] is Some);
        }
    }
}

/// Some clause of a row says of the new version that it has this text.
pub open spec fn is_new_told(cs: Seq<ClauseView>, row: Text, x: Text) -> bool {
    exists|j: int| 0 <= j < cs.len() && (#[trigger] cs[j]).row == row && cs[j].after == Some(x)
}

/// Some clause of a row says of the old version that it had this text.
pub open spec fn is_old_told(cs: Seq<ClauseView>, row: Text, x: Text) -> bool {
    exists|j: int| 0 <= j < cs.len() && (#[trigger] cs[j]).row == row && speaks_of_old(cs[j], x)
}

proof fn row_has_its_items(items: Seq<ItemView>, row: Text, i: int, n: int)
    requires
        0 <= i <= n < items.len(),
        items[n].row == row,
    ensures
        in_row(items, row, i).contains(items[n]),
    decreases n - i,
{
    let rest = in_row(items, row, i + 1);
    let all = in_row(items, row, i);
    if i == n {
        assert(all[0] == items[n]);
    } else {
        row_has_its_items(items, row, i + 1, n);
        let j = choose|j: int| 0 <= j < rest.len() && rest[j] == items[n];
        let h = all.len() - rest.len();
        assert(all[h + j] == rest[j]);
    }
}

proof fn told_in_sum(a: Seq<ClauseView>, b: Seq<ClauseView>, row: Text, x: Text)
    ensures
        is_new_told(a, row, x) || is_new_told(b, row, x) ==> is_new_told(a + b, row, x),
        is_old_told(a, row, x) || is_old_told(b, row, x) ==> is_old_told(a + b, row, x),
{
    let c = a + b;
    assert forall|j: int| 0 <= j < a.len() implies c[j] == #[trigger] a[j] by {}
    assert forall|j: int| 0 <= j < b.len() implies c[a.len() + j] == #[trigger] b[j] by {}
    if is_new_told(b, row, x) {
        let j = choose|j: int|
            0 <= j < b.len() && (#[trigger] b[j]).row == row && b[j].after == Some(x);
        assert(c[a.len() + j].row == row);
    }
    if is_old_told(b, row, x) {
        let j = choose|j: int|
            0 <= j < b.len() && (#[trigger] b[j]).row == row && speaks_of_old(b[j], x);
        assert(c[a.len() + j].row == row);
    }
    if is_new_told(a, row, x) {
        let j = choose|j: int|
            0 <= j < a.len() && (#[trigger] a[j]).row == row && a[j].after == Some(x);
        assert(c[j].row == row);
    }
    if is_old_told(a, row, x) {
        let j = choose|j: int|
            0 <= j < a.len() && (#[trigger] a[j]).row == row && speaks_of_old(a[j], x);
        assert(c[j].row == row);
    }
}

proof fn rows_are_told(before: Seq<ItemView>, after: Seq<ItemView>, row: Text, x: Text)
    requires
        is_item_row(row),
    ensures
        is_new_told(row_compared(row, before, after), row, x) ==> is_new_told(
            compared(before, after),
            row,
            x,
        ),
        is_old_told(row_compared(row, before, after), row, x) ==> is_old_told(
            compared(before, after),
            row,
            x,
        ),
{
    let s1 = row_compared("takes"@, before, after);
    let s2 = row_compared("who"@, before, after);
    let s3 = row_compared("returns"@, before, after);
    let s4 = row_compared("pre"@, before, after);
    let s5 = row_compared("where"@, before, after);
    let s6 = row_compared("post"@, before, after);
    let s7 = row_compared("effects"@, before, after);
    let s8 = row_compared("renders"@, before, after);
    told_in_sum(s1, s2, row, x);
    told_in_sum(s1 + s2, s3, row, x);
    told_in_sum(s1 + s2 + s3, s4, row, x);
    told_in_sum(s1 + s2 + s3 + s4, s5, row, x);
    told_in_sum(s1 + s2 + s3 + s4 + s5, s6, row, x);
    told_in_sum(s1 + s2 + s3 + s4 + s5 + s6, s7, row, x);
    told_in_sum(s1 + s2 + s3 + s4 + s5 + s6 + s7, s8, row, x);
}

/// Every item of a contract, old or new, is accounted for in its row when the two versions are
/// compared.
pub proof fn items_are_accounted_for(before: Seq<ItemView>, after: Seq<ItemView>, n: int)
    ensures
        0 <= n < before.len() && is_item_row(before[n].row) ==> is_old_told(
            compared(before, after),
            before[n].row,
            before[n].text,
        ),
        0 <= n < after.len() && is_item_row(after[n].row) ==> is_new_told(
            compared(before, after),
            after[n].row,
            after[n].text,
        ),
{
    if 0 <= n < before.len() && is_item_row(before[n].row) {
        let row = before[n].row;
        let x = before[n].text;
        rows_account_for_items(row, before, after);
        row_has_its_items(before, row, 0, n);
        let cs = row_compared(row, before, after);
        let a = in_row(before, row, 0);
        let k = choose|k: int| 0 <= k < a.len() && a[k] == before[n];
        assert(is_old_said(cs, a[k].text));
        let j = choose|j: int| 0 <= j < cs.len() && speaks_of_old(#[trigger] cs[j], x);
        assert(cs[j].row == row);
        rows_are_told(before, after, row, x);
    }
    if 0 <= n < after.len() && is_item_row(after[n].row) {
        let row = after[n].row;
        let x = after[n].text;
        rows_account_for_items(row, before, after);
        row_has_its_items(after, row, 0, n);
        let cs = row_compared(row, before, after);
        let b = in_row(after, row, 0);
        let k = choose|k: int| 0 <= k < b.len() && b[k] == after[n];
        assert(is_new_said(cs, b[k].text));
        let j = choose|j: int| 0 <= j < cs.len() && (#[trigger] cs[j]).after == Some(x);
        assert(cs[j].row == row);
        rows_are_told(before, after, row, x);
    }
}

// ---- risk

/// A clause of a contract has a mark.
pub open spec fn has_clause(c: ContractDiffView, row: Text, mark: char) -> bool {
    exists|k: int|
        0 <= k < c.clauses.len() && (#[trigger] c.clauses[k]).row == row && c.clauses[k].mark == mark
}

/// A contract breaks a rule.
pub open spec fn breaks_rule(c: ContractDiffView) -> bool {
    exists|k: int| 0 <= k < c.clauses.len() && (#[trigger] c.clauses[k]).mark == '!'
}

/// A contract asks for less than it did, or for something else of who may call: a requirement of
/// access is gone or changed, a check or a filter is gone, or a clause is widened.
pub open spec fn is_loosened(c: ContractDiffView) -> bool {
    ||| has_clause(c, "who"@, '-')
    ||| has_clause(c, "who"@, '~')
    ||| has_clause(c, "pre"@, '-')
    ||| has_clause(c, "where"@, '-')
    ||| exists|k: int| 0 <= k < c.clauses.len() && (#[trigger] c.clauses[k]).tag == Some("widened"@)
}

proof fn rows_marked(c: ContractDiffView, row: Text, m: char, n: char)
    ensures
        crate::contract::row_marked(c, row, m, n) == (has_clause(c, row, m) || has_clause(c, row, n)),
{
    if crate::contract::row_marked(c, row, m, n) {
        let k = choose|k: int|
            0 <= k < c.clauses.len() && (#[trigger] c.clauses[k]).row == row && (c.clauses[k].mark == m
                || c.clauses[k].mark == n);
        assert(c.clauses[k].row == row);
    }
    if has_clause(c, row, m) {
        let k = choose|k: int|
            0 <= k < c.clauses.len() && (#[trigger] c.clauses[k]).row == row && c.clauses[k].mark == m;
        assert(c.clauses[k].row == row);
    }
    if has_clause(c, row, n) {
        let k = choose|k: int|
            0 <= k < c.clauses.len() && (#[trigger] c.clauses[k]).row == row && c.clauses[k].mark == n;
        assert(c.clauses[k].row == row);
    }
}

/// A contract that breaks a rule is read before one that does not; one that is loosened before one
/// that is neither; then other typed changes, then new code, then schemas. Within one risk the
/// names decide.
pub proof fn riskier_contracts_come_first(c: ContractDiffView, d: ContractDiffView)
    ensures
        breaks_rule(c) && !breaks_rule(d) ==> read_first(c, d),
        is_loosened(c) && !is_loosened(d) && !breaks_rule(d) ==> read_first(c, d),
        c.status == "changed"@ && !is_untyped(c) && (d.status == "new"@ || d.status == "schema"@)
            && !is_loosened(d) && !breaks_rule(d) ==> read_first(c, d),
        c.status == "new"@ && d.status == "schema"@ && !is_loosened(d) && !breaks_rule(d)
            ==> read_first(c, d),
        c.status == "schema"@ && d.status == "changed"@ && is_untyped(d) && !is_loosened(d)
            && !breaks_rule(d) ==> read_first(c, d),
{
    rows_marked(c, "who"@, '-', '~');
    rows_marked(c, "pre"@, '-', '-');
    rows_marked(c, "where"@, '-', '-');
    rows_marked(d, "who"@, '-', '~');
    rows_marked(d, "pre"@, '-', '-');
    rows_marked(d, "where"@, '-', '-');
    assert(crate::clauses::has_mark(c, '!') == breaks_rule(c));
    assert(crate::clauses::has_mark(d, '!') == breaks_rule(d));
    reveal_strlit("changed");
    reveal_strlit("new");
    reveal_strlit("schema");
    assert("changed"@.len() == 7 && "new"@.len() == 3 && "schema"@.len() == 6);
}

} // verus!
