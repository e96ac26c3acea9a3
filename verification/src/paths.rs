//! How the path of an import is followed to a module.

use crate::ir::ModuleView;
use crate::ordered::lookup;
use crate::resolve::{candidates, captured, first_module, followed};
use crate::text;
use crate::text::Text;
use vstd::prelude::*;

verus! {

/// A segment that names a file or a directory.
pub open spec fn is_name(s: Text) -> bool {
    s != "."@ && s != ""@ && s != ".."@
}

proof fn followed_from(parts: Seq<Text>, a: Seq<Text>, b: Seq<Text>, i: int)
    requires
        0 <= i <= a.len(),
    ensures
        followed(parts, a + b, i) == followed(followed(parts, a, i), b, 0),
    decreases a.len() - i,
{
    let all = a + b;
    if i < a.len() {
        assert(all[i] == a[i]);
        let s = a[i];
        let next = if s == "."@ || s == ""@ {
            parts
        } else if s == ".."@ {
            if parts.len() == 0 {
                parts
            } else {
                parts.drop_last()
            }
        } else {
            parts.push(s)
        };
        followed_from(next, a, b, i + 1);
    } else {
        followed_shifted(parts, a, b, i);
    }
}

proof fn followed_shifted(parts: Seq<Text>, a: Seq<Text>, b: Seq<Text>, i: int)
    requires
        a.len() <= i <= a.len() + b.len(),
    ensures
        followed(parts, a + b, i) == followed(parts, b, i - a.len()),
    decreases a.len() + b.len() - i,
{
    let all = a + b;
    if i < all.len() {
        assert(all[i] == b[i - a.len()]);
        let s = all[i];
        let next = if s == "."@ || s == ""@ {
            parts
        } else if s == ".."@ {
            if parts.len() == 0 {
                parts
            } else {
                parts.drop_last()
            }
        } else {
            parts.push(s)
        };
        followed_shifted(next, a, b, i + 1);
    }
}

/// A path is followed one part after the other.
pub proof fn paths_are_followed_in_order(parts: Seq<Text>, a: Seq<Text>, b: Seq<Text>)
    ensures
        followed(parts, a + b, 0) == followed(followed(parts, a, 0), b, 0),
{
    followed_from(parts, a, b, 0);
}

/// A name goes down into it.
pub proof fn names_go_down(parts: Seq<Text>, x: Text)
    requires
        is_name(x),
    ensures
        followed(parts, seq![x], 0) == parts.push(x),
{
    reveal_with_fuel(followed, 2);
    assert(seq![x][0] == x);
}

/// Going down and up again leads nowhere, and neither does staying.
pub proof fn up_undoes_down(parts: Seq<Text>, x: Text)
    requires
        is_name(x),
    ensures
        followed(parts, seq![x, ".."@], 0) == parts,
        followed(parts, seq!["."@], 0) == parts,
{
    reveal_strlit(".");
    reveal_strlit("..");
    reveal_strlit("");
    assert("."@.len() == 1 && ".."@.len() == 2 && ""@.len() == 0);
    reveal_with_fuel(followed, 3);
    let s = seq![x, ".."@];
    assert(s[0] == x && s[1] == ".."@);
    assert(seq!["."@][0] == "."@);
    assert(parts.push(x).drop_last() =~= parts);
}

/// A pattern of an alias captures what stands in the place of its star.
pub proof fn aliases_capture_the_rest(pattern: Text, head: Text, tail: Text, spec: Text, x: Text)
    requires
        text::parted(pattern, "*"@) == Some((head, tail)),
    ensures
        captured(pattern, spec) == Some(x) <==> spec == head + x + tail,
{
    if spec == head + x + tail {
        assert(spec.subrange(0, head.len() as int) =~= head);
        assert(spec.subrange(spec.len() - tail.len(), spec.len() as int) =~= tail);
        assert(spec.subrange(head.len() as int, spec.len() - tail.len()) =~= x);
        assert(text::begins(spec, head) && text::ends(spec, tail));
    }
    if captured(pattern, spec) == Some(x) {
        assert(spec.subrange(0, head.len() as int) == head);
        assert(spec.subrange(spec.len() - tail.len(), spec.len() as int) == tail);
        assert(spec =~= spec.subrange(0, head.len() as int) + spec.subrange(
            head.len() as int,
            spec.len() - tail.len(),
        ) + spec.subrange(spec.len() - tail.len(), spec.len() as int));
    }
}

/// An alias without a star stands for its own text alone.
pub proof fn plain_aliases_are_themselves(pattern: Text, spec: Text)
    requires
        text::parted(pattern, "*"@) is None,
    ensures
        captured(pattern, spec) is Some <==> spec == pattern,
{
}

proof fn first_is_found(modules: Seq<(Text, ModuleView)>, cands: Seq<Text>, i: int)
    requires
        0 <= i,
    ensures
        match first_module(modules, cands, i) {
            Some(m) => lookup(modules, m) is Some && exists|k: int|
                i <= k < cands.len() && #[trigger] cands[k] == m && forall|j: int|
                    i <= j < k ==> lookup(modules, #[trigger] cands[j]) is None,
            None => forall|j: int|
                i <= j < cands.len() ==> lookup(modules, #[trigger] cands[j]) is None,
        },
    decreases cands.len() - i,
{
    if i < cands.len() {
        if lookup(modules, cands[i]) is Some {
            assert(cands[i] == cands[i]);
        } else {
            first_is_found(modules, cands, i + 1);
            if let Some(m) = first_module(modules, cands, i + 1) {
                let k = choose|k: int|
                    i + 1 <= k < cands.len() && #[trigger] cands[k] == m && forall|j: int|
                        i + 1 <= j < k ==> lookup(modules, #[trigger] cands[j]) is None;
                assert(cands[k] == m);
            }
        }
    }
}

/// The module that an import leads to is there; a file of the very name comes first, and the index
/// of a directory of that name is found where no file is.
pub proof fn imports_lead_to_modules(modules: Seq<(Text, ModuleView)>, base: Text)
    ensures
        first_module(modules, candidates(base), 0) matches Some(m) ==> lookup(modules, m) is Some,
        lookup(modules, base) is Some ==> first_module(modules, candidates(base), 0) == Some(base),
        lookup(modules, base + "/index.ts"@) is Some || lookup(modules, base + "/index.js"@) is Some
            ==> first_module(modules, candidates(base), 0) is Some,
{
    let cands = candidates(base);
    first_is_found(modules, cands, 0);
    assert(cands[0] == base);
    assert(cands[5] == base + "/index.ts"@);
    assert(cands[6] == base + "/index.js"@);
}

} // verus!
