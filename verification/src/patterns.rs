//! What the patterns of a catalog fit, and which of its rules is taken.

use crate::catalog::{
    effect_from, pattern_fits, segment_fits, segments_fit, subscribe_from, EffectRuleView,
    SubscribeRuleView,
};
use crate::text;
use crate::text::Text;
use vstd::prelude::*;

verus! {

proof fn names_fit_from(ps: Seq<Text>, i: int, segs: Seq<Text>, j: int)
    requires
        0 <= i <= ps.len(),
        0 <= j <= segs.len(),
        forall|k: int| 0 <= k < ps.len() ==> !text::begins(#[trigger] ps[k], "*"@),
    ensures
        segments_fit(ps, i, segs, j) <==> ps.skip(i) == segs.skip(j),
    decreases ps.len() - i,
{
    if i < ps.len() {
        assert(!text::begins(ps[i], "*"@));
        assert(ps[i] != "**"@) by {
            reveal_strlit("*");
            reveal_strlit("**");
            assert("**"@.subrange(0, 1) =~= "*"@);
            assert(text::begins("**"@, "*"@));
        }
        assert(ps.skip(i)[0] == ps[i]);
        if j < segs.len() {
            names_fit_from(ps, i + 1, segs, j + 1);
            assert(segs.skip(j)[0] == segs[j]);
            assert(ps.skip(i) =~= seq![ps[i]] + ps.skip(i + 1));
            assert(segs.skip(j) =~= seq![segs[j]] + segs.skip(j + 1));
            if ps.skip(i) == segs.skip(j) {
                assert(ps.skip(i + 1) =~= ps.skip(i).skip(1));
                assert(segs.skip(j + 1) =~= segs.skip(j).skip(1));
            }
        } else {
            assert(ps.skip(i).len() != segs.skip(j).len());
        }
    } else {
        assert(ps.skip(i).len() == 0);
        if j >= segs.len() {
            assert(ps.skip(i) =~= segs.skip(j));
        } else {
            assert(segs.skip(j).len() > 0);
        }
    }
}

/// A pattern without stars fits the segments that it writes and no others.
pub proof fn names_fit_themselves(ps: Seq<Text>, segs: Seq<Text>)
    requires
        forall|k: int| 0 <= k < ps.len() ==> !text::begins(#[trigger] ps[k], "*"@),
    ensures
        segments_fit(ps, 0, segs, 0) <==> ps == segs,
{
    names_fit_from(ps, 0, segs, 0);
    assert(ps.skip(0) =~= ps);
    assert(segs.skip(0) =~= segs);
}

/// A star before a text fits the segments that have something before that text.
pub proof fn star_is_something(x: Text, s: Text)
    ensures
        segment_fits("*"@ + x, s) <==> exists|head: Text| head.len() > 0 && s == #[trigger] (head + x),
{
    reveal_strlit("*");
    let p = "*"@ + x;
    assert(p.subrange(0, 1) =~= "*"@);
    assert(text::begins(p, "*"@));
    assert(p.skip(1) =~= x);
    assert(text::after_prefix(p, "*"@) == Some(x));
    if segment_fits(p, s) {
        if p == s {
            assert(s == "*"@ + x);
        } else {
            let head = s.take(s.len() - x.len());
            assert(s.subrange(s.len() - x.len(), s.len() as int) == x);
            assert(s =~= head + x);
        }
    }
    if exists|head: Text| head.len() > 0 && s == #[trigger] (head + x) {
        let head = choose|head: Text| head.len() > 0 && s == #[trigger] (head + x);
        assert(s.subrange(s.len() - x.len(), s.len() as int) =~= x);
        assert(text::ends(s, x));
    }
}

/// The effect rule that is taken is the first that fits, and there is none only where none fits.
pub proof fn first_effect_rule_is_taken(rules: Seq<EffectRuleView>, segs: Seq<Text>, i: int)
    requires
        0 <= i,
    ensures
        match effect_from(rules, segs, i) {
            Some(r) => exists|k: int|
                i <= k < rules.len() && #[trigger] rules[k] == r && pattern_fits(r.pattern, segs) && forall|j: int|
                    i <= j < k ==> !(pattern_fits((#[trigger] rules[j]).pattern, segs)),
            None => forall|j: int|
                i <= j < rules.len() ==> !(pattern_fits((#[trigger] rules[j]).pattern, segs)),
        },
    decreases rules.len() - i,
{
    if i < rules.len() {
        if pattern_fits(rules[i].pattern, segs) {
            assert(rules[i] == rules[i]);
        } else {
            first_effect_rule_is_taken(rules, segs, i + 1);
            if let Some(r) = effect_from(rules, segs, i + 1) {
                let k = choose|k: int|
                    i + 1 <= k < rules.len() && #[trigger] rules[k] == r && pattern_fits(r.pattern, segs) && forall|
                        j: int,
                    | i + 1 <= j < k ==> !(pattern_fits((#[trigger] rules[j]).pattern, segs));
                assert(rules[k] == r);
            }
        }
    }
}

/// The subscription rule that is taken is the first that fits, and there is none only where none fits.
pub proof fn first_subscription_rule_is_taken(rules: Seq<SubscribeRuleView>, segs: Seq<Text>, decorator: bool, i: int)
    requires
        0 <= i,
    ensures
        match subscribe_from(rules, segs, decorator, i) {
            Some(r) => exists|k: int|
                i <= k < rules.len() && #[trigger] rules[k] == r && (r.handler_arg is None) == decorator && pattern_fits(r.pattern, segs) && forall|j: int|
                    i <= j < k ==> !(((#[trigger] rules[j]).handler_arg is None) == decorator && pattern_fits((#[trigger] rules[j]).pattern, segs)),
            None => forall|j: int|
                i <= j < rules.len() ==> !(((#[trigger] rules[j]).handler_arg is None) == decorator && pattern_fits((#[trigger] rules[j]).pattern, segs)),
        },
    decreases rules.len() - i,
{
    if i < rules.len() {
        if (rules[i].handler_arg is None) == decorator && pattern_fits(rules[i].pattern, segs) {
            assert(rules[i] == rules[i]);
        } else {
            first_subscription_rule_is_taken(rules, segs, decorator, i + 1);
            if let Some(r) = subscribe_from(rules, segs, decorator, i + 1) {
                let k = choose|k: int|
                    i + 1 <= k < rules.len() && #[trigger] rules[k] == r && (r.handler_arg is None) == decorator && pattern_fits(r.pattern, segs) && forall|
                        j: int,
                    | i + 1 <= j < k ==> !(((#[trigger] rules[j]).handler_arg is None) == decorator && pattern_fits((#[trigger] rules[j]).pattern, segs));
                assert(rules[k] == r);
            }
        }
    }
}

} // verus!
