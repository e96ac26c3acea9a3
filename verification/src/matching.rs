//! Correspondence of entities between two versions: what stayed, moved or was renamed.

use crate::infer::new_name;
use crate::list;
use crate::list::Plain;
use crate::model::{ClassInfo, ClassInfoView, Entity, EntityView, Model, ModelView};
use crate::ordered::{
    added, ascending, lookup, lookup_after_put, lookup_of_other, put, put_keeps_order, SortedMap,
    SortedSet,
};
use crate::text;
use crate::text::Text;
use vstd::prelude::*;

verus! {

/// Correspondence between entity ids of the two versions.
#[derive(Debug, PartialEq)]
pub struct Matching {
    /// Before id to after id, for every entity present in both (possibly moved).
    pub forward: SortedMap<String, String>,
    pub backward: SortedMap<String, String>,
    /// Before module to after module, for modules that moved as a whole.
    pub modules: SortedMap<String, String>,
    /// Classes that moved: before class id to after class id.
    pub moved_classes: SortedMap<String, String>,
    /// Free functions that moved or were renamed.
    pub moved_functions: SortedMap<String, String>,
}

/// The view of [`Matching`].
#[verifier::ext_equal]
pub struct MatchingView {
    pub forward: Seq<(Seq<char>, Seq<char>)>,
    pub backward: Seq<(Seq<char>, Seq<char>)>,
    pub modules: Seq<(Seq<char>, Seq<char>)>,
    pub moved_classes: Seq<(Seq<char>, Seq<char>)>,
    pub moved_functions: Seq<(Seq<char>, Seq<char>)>,
}

impl DeepView for Matching {
    type V = MatchingView;

    open spec fn deep_view(&self) -> MatchingView {
        MatchingView { forward: self.forward.deep_view(), backward: self.backward.deep_view(), modules: self.modules.deep_view(), moved_classes: self.moved_classes.deep_view(), moved_functions: self.moved_functions.deep_view() }
    }
}

// ---- what stays

/// The entities from index `i` on that both versions have, each under its own id.
pub open spec fn kept_from(
    before: Seq<(Text, EntityView)>,
    after: Seq<(Text, EntityView)>,
    i: int,
    acc: Seq<(Text, Text)>,
) -> Seq<(Text, Text)>
    decreases before.len() - i,
{
    if 0 <= i < before.len() {
        let id = before[i].0;
        kept_from(
            before,
            after,
            i + 1,
            if lookup(after, id) is Some {
                put(acc, id, id)
            } else {
                acc
            },
        )
    } else {
        acc
    }
}

// ---- classes

/// The classes from index `i` on that the other version does not have.
pub open spec fn only_here(
    here: Seq<(Text, ClassInfoView)>,
    there: Seq<(Text, ClassInfoView)>,
    i: int,
) -> Seq<ClassInfoView>
    decreases here.len() - i,
{
    if 0 <= i < here.len() {
        let rest = only_here(here, there, i + 1);
        if lookup(there, here[i].1.id) is Some {
            rest
        } else {
            seq![here[i].1] + rest
        }
    } else {
        seq![]
    }
}

/// The simple names of the methods from index `i` on, added to `acc`.
pub open spec fn names_from(methods: Seq<Text>, i: int, acc: Seq<Text>) -> Seq<Text>
    decreases methods.len() - i,
{
    if 0 <= i < methods.len() {
        names_from(methods, i + 1, added(acc, text::after_last(methods[i], "."@)))
    } else {
        acc
    }
}

/// Two classes have the same name and the same method names.
pub open spec fn same_class(a: ClassInfoView, b: ClassInfoView) -> bool {
    b.name == a.name && names_from(b.methods, 0, seq![]) == names_from(a.methods, 0, seq![])
}

/// The first class from index `i` on that is the same as `a`.
pub open spec fn twin_from(classes: Seq<ClassInfoView>, a: ClassInfoView, i: int) -> Option<
    ClassInfoView,
>
    decreases classes.len() - i,
{
    if 0 <= i < classes.len() {
        if same_class(a, classes[i]) {
            Some(classes[i])
        } else {
            twin_from(classes, a, i + 1)
        }
    } else {
        None
    }
}

/// An id without its module: `Class.method`.
pub open spec fn local_name(id: Text) -> Text {
    match text::parted_last(id, "::"@) {
        Some((_, q)) => q,
        None => id,
    }
}

/// The first method from index `i` on whose id ends in `suffix`.
pub open spec fn method_from(methods: Seq<Text>, suffix: Text, i: int) -> Option<Text>
    decreases methods.len() - i,
{
    if 0 <= i < methods.len() {
        if text::ends(methods[i], suffix) {
            Some(methods[i])
        } else {
            method_from(methods, suffix, i + 1)
        }
    } else {
        None
    }
}

/// The pairs with the methods from index `i` on of a class that moved.
pub open spec fn methods_from(
    before: Seq<Text>,
    after: Seq<Text>,
    i: int,
    acc: Seq<(Text, Text)>,
) -> Seq<(Text, Text)>
    decreases before.len() - i,
{
    if 0 <= i < before.len() {
        methods_from(
            before,
            after,
            i + 1,
            match method_from(after, "::"@ + local_name(before[i]), 0) {
                Some(id) => put(acc, before[i], id),
                None => acc,
            },
        )
    } else {
        acc
    }
}

/// The matching with the classes from index `i` on that moved, their methods included.
pub open spec fn classes_from(
    gone: Seq<ClassInfoView>,
    fresh: Seq<ClassInfoView>,
    i: int,
    m: MatchingView,
) -> MatchingView
    decreases gone.len() - i,
{
    if 0 <= i < gone.len() {
        let c = gone[i];
        classes_from(
            gone,
            fresh,
            i + 1,
            match twin_from(fresh, c, 0) {
                Some(d) => MatchingView {
                    moved_classes: put(m.moved_classes, c.id, d.id),
                    forward: methods_from(c.methods, d.methods, 0, m.forward),
                    ..m
                },
                None => m,
            },
        )
    } else {
        m
    }
}

// ---- free functions

/// A value of the pairs.
pub open spec fn is_value(pairs: Seq<(Text, Text)>, id: Text) -> bool {
    exists|i: int| 0 <= i < pairs.len() && (#[trigger] pairs[i]).1 == id
}

/// The entities from index `i` on that nothing is matched with.
pub open spec fn unmatched_from(
    after: Seq<(Text, EntityView)>,
    forward: Seq<(Text, Text)>,
    i: int,
) -> Seq<(Text, EntityView)>
    decreases after.len() - i,
{
    if 0 <= i < after.len() {
        let rest = unmatched_from(after, forward, i + 1);
        if is_value(forward, after[i].0) {
            rest
        } else {
            seq![after[i]] + rest
        }
    } else {
        seq![]
    }
}

/// A function that stands on its own: neither a method nor a closure.
pub open spec fn is_free(e: EntityView) -> bool {
    e.class is None && e.parent is None
}

/// Two free functions have the same body, and the same name or the same module.
pub open spec fn same_function(a: EntityView, b: EntityView) -> bool {
    is_free(b) && b.body_hash == a.body_hash && (b.name == a.name || b.module == a.module)
}

/// The first of the entities from index `i` on that is the same function as `e`.
pub open spec fn function_from(unmatched: Seq<(Text, EntityView)>, e: EntityView, i: int) -> Option<
    Text,
>
    decreases unmatched.len() - i,
{
    if 0 <= i < unmatched.len() {
        if same_function(e, unmatched[i].1) {
            Some(unmatched[i].0)
        } else {
            function_from(unmatched, e, i + 1)
        }
    } else {
        None
    }
}

/// The matching with the free functions from index `i` on that moved or were renamed.
pub open spec fn functions_from(
    before: Seq<(Text, EntityView)>,
    unmatched: Seq<(Text, EntityView)>,
    i: int,
    m: MatchingView,
) -> MatchingView
    decreases before.len() - i,
{
    if 0 <= i < before.len() {
        let (id, e) = before[i];
        functions_from(
            before,
            unmatched,
            i + 1,
            if lookup(m.forward, id) is Some || !is_free(e) {
                m
            } else {
                match function_from(unmatched, e, 0) {
                    Some(idb) => MatchingView {
                        forward: put(m.forward, id, idb),
                        moved_functions: put(m.moved_functions, id, idb),
                        ..m
                    },
                    None => m,
                }
            },
        )
    } else {
        m
    }
}

// ---- closures

/// The pairs with the closures from index `i` on of a function that moved.
pub open spec fn closures_of(
    before: Seq<(Text, EntityView)>,
    after: Seq<(Text, EntityView)>,
    pair: (Text, Text),
    i: int,
    acc: Seq<(Text, Text)>,
) -> Seq<(Text, Text)>
    decreases before.len() - i,
{
    if 0 <= i < before.len() {
        let id = before[i].0;
        closures_of(
            before,
            after,
            pair,
            i + 1,
            match text::after_prefix(id, pair.0 + "."@) {
                Some(tail) => {
                    let idb = pair.1 + "."@ + tail;
                    if lookup(after, idb) is Some {
                        put(acc, id, idb)
                    } else {
                        acc
                    }
                },
                None => acc,
            },
        )
    } else {
        acc
    }
}

/// The pairs with the closures of the pairs from index `i` on whose id changed.
pub open spec fn closures_from(
    before: Seq<(Text, EntityView)>,
    after: Seq<(Text, EntityView)>,
    pairs: Seq<(Text, Text)>,
    i: int,
    acc: Seq<(Text, Text)>,
) -> Seq<(Text, Text)>
    decreases pairs.len() - i,
{
    if 0 <= i < pairs.len() {
        closures_from(
            before,
            after,
            pairs,
            i + 1,
            if pairs[i].0 != pairs[i].1 {
                closures_of(before, after, pairs[i], 0, acc)
            } else {
                acc
            },
        )
    } else {
        acc
    }
}

// ---- modules

/// Where the entities of each module went, for the pairs from index `i` on.
pub open spec fn votes_from(
    before: Seq<(Text, EntityView)>,
    after: Seq<(Text, EntityView)>,
    pairs: Seq<(Text, Text)>,
    i: int,
    acc: Seq<(Text, Seq<Text>)>,
) -> Seq<(Text, Seq<Text>)>
    decreases pairs.len() - i,
{
    if 0 <= i < pairs.len() {
        votes_from(
            before,
            after,
            pairs,
            i + 1,
            match (lookup(before, pairs[i].0), lookup(after, pairs[i].1)) {
                (Some(a), Some(b)) => put(
                    acc,
                    a.module,
                    added(
                        match lookup(acc, a.module) {
                            Some(ms) => ms,
                            None => seq![],
                        },
                        b.module,
                    ),
                ),
                _ => acc,
            },
        )
    } else {
        acc
    }
}

/// A module of the entities.
pub open spec fn has_module(entities: Seq<(Text, EntityView)>, module: Text) -> bool {
    exists|i: int| 0 <= i < entities.len() && (#[trigger] entities[i]).1.module == module
}

/// The modules from index `i` on that are gone and whose entities all went to one module.
pub open spec fn modules_from(
    after: Seq<(Text, EntityView)>,
    votes: Seq<(Text, Seq<Text>)>,
    i: int,
    acc: Seq<(Text, Text)>,
) -> Seq<(Text, Text)>
    decreases votes.len() - i,
{
    if 0 <= i < votes.len() {
        modules_from(
            after,
            votes,
            i + 1,
            if votes[i].1.len() == 1 && !has_module(after, votes[i].0) {
                put(acc, votes[i].0, votes[i].1[0])
            } else {
                acc
            },
        )
    } else {
        acc
    }
}

// ---- the whole

/// The pairs from index `i` on, turned round, added to `acc`.
pub open spec fn reversed_from(pairs: Seq<(Text, Text)>, i: int, acc: Seq<(Text, Text)>) -> Seq<
    (Text, Text),
>
    decreases pairs.len() - i,
{
    if 0 <= i < pairs.len() {
        reversed_from(pairs, i + 1, put(acc, pairs[i].1, pairs[i].0))
    } else {
        acc
    }
}

/// The matching of nothing.
pub open spec fn no_match() -> MatchingView {
    MatchingView {
        forward: seq![],
        backward: seq![],
        modules: seq![],
        moved_classes: seq![],
        moved_functions: seq![],
    }
}

/// The correspondence of two versions.
pub open spec fn matched(a: ModelView, b: ModelView) -> MatchingView {
    let m = MatchingView {
        forward: kept_from(a.entities, b.entities, 0, seq![]),
        ..no_match()
    };
    let m = classes_from(
        only_here(a.classes, b.classes, 0),
        only_here(b.classes, a.classes, 0),
        0,
        m,
    );
    let m = functions_from(a.entities, unmatched_from(b.entities, m.forward, 0), 0, m);
    let forward = closures_from(a.entities, b.entities, m.forward, 0, m.forward);
    MatchingView {
        forward,
        modules: modules_from(
            b.entities,
            votes_from(a.entities, b.entities, forward, 0, seq![]),
            0,
            m.modules,
        ),
        backward: reversed_from(forward, 0, seq![]),
        ..m
    }
}

// ---- laws

proof fn reversed_holds(pairs: Seq<(Text, Text)>, i: int, acc: Seq<(Text, Text)>, y: Text)
    requires
        ascending(acc),
        0 <= i <= pairs.len(),
    ensures
        match lookup(reversed_from(pairs, i, acc), y) {
            Some(x) => lookup(acc, y) == Some(x) || exists|k: int|
                i <= k < pairs.len() && #[trigger] pairs[k] == (x, y),
            None => lookup(acc, y) is None && forall|k: int|
                i <= k < pairs.len() ==> (#[trigger] pairs[k]).1 != y,
        },
    decreases pairs.len() - i,
{
    if i < pairs.len() {
        let next = put(acc, pairs[i].1, pairs[i].0);
        put_keeps_order(acc, pairs[i].1, pairs[i].0);
        reversed_holds(pairs, i + 1, next, y);
        if y == pairs[i].1 {
            lookup_after_put(acc, pairs[i].1, pairs[i].0);
        } else {
            lookup_of_other(acc, pairs[i].1, pairs[i].0, y);
        }
    }
}

/// The way back undoes the way forward: what an entity of the new version came from is matched
/// with it, and an entity came from somewhere exactly if something is matched with it.
pub proof fn backward_undoes_forward(a: ModelView, b: ModelView, y: Text)
    ensures
        match lookup(matched(a, b).backward, y) {
            Some(x) => exists|k: int|
                0 <= k < matched(a, b).forward.len() && #[trigger] matched(a, b).forward[k] == (
                    x,
                    y,
                ),
            None => !is_value(matched(a, b).forward, y),
        },
{
    reversed_holds(matched(a, b).forward, 0, seq![], y);
}

// ---- execution

impl Default for Matching {
    fn default() -> (r: Self)
        ensures
            r.deep_view() == no_match(),
    {
        Matching {
            forward: SortedMap::new(),
            backward: SortedMap::new(),
            modules: SortedMap::new(),
            moved_classes: SortedMap::new(),
            moved_functions: SortedMap::new(),
        }
    }
}

impl Matching {
    /// What an entity is called after the change.
    pub fn to_after(&self, id: &str) -> (r: String)
        ensures
            r@ == new_name(self.deep_view().forward, id@),
    {
        match self.forward.find(id) {
            Some(n) => n.dup(),
            None => id.to_owned(),
        }
    }

    /// What a module is called after the change.
    pub fn module_to_after(&self, m: &str) -> (r: String)
        ensures
            r@ == new_name(self.deep_view().modules, m@),
    {
        match self.modules.find(m) {
            Some(n) => n.dup(),
            None => m.to_owned(),
        }
    }
}

fn only_in<'m>(
    here: &'m SortedMap<String, ClassInfo>,
    there: &SortedMap<String, ClassInfo>,
) -> (r: Vec<&'m ClassInfo>)
    ensures
        r.deep_view() == only_here(here.deep_view(), there.deep_view(), 0),
{
    let ghost hv = here.deep_view();
    let ghost tv = there.deep_view();
    let mut out: Vec<&'m ClassInfo> = list::empty();
    let mut i: usize = 0;
    while i < here.len()
        invariant
            i <= hv.len(),
            hv == here.deep_view(),
            tv == there.deep_view(),
            out.deep_view() + only_here(hv, tv, i as int) == only_here(hv, tv, 0),
        decreases hv.len() - i,
    {
        let c = here.value(i);
        if !there.contains_key(&c.id) {
            list::push(&mut out, c);
        }
        i += 1;
    }
    out
}

fn names(methods: &Vec<String>) -> (r: SortedSet<String>)
    ensures
        r.deep_view() == names_from(methods.deep_view(), 0, seq![]),
{
    let ghost v = methods.deep_view();
    let mut out: SortedSet<String> = SortedSet::new();
    let mut i: usize = 0;
    while i < methods.len()
        invariant
            i <= methods@.len(),
            v == methods.deep_view(),
            names_from(v, i as int, out.deep_view()) == names_from(v, 0, seq![]),
        decreases methods@.len() - i,
    {
        out.insert(text::last_piece(&methods[i], "."));
        i += 1;
    }
    out
}

fn twin<'m>(classes: &Vec<&'m ClassInfo>, a: &ClassInfo) -> (r: Option<&'m ClassInfo>)
    ensures
        r.deep_view() == twin_from(classes.deep_view(), a.deep_view(), 0),
{
    let ghost v = classes.deep_view();
    let ghost av = a.deep_view();
    let own = names(&a.methods);
    let mut i: usize = 0;
    while i < classes.len()
        invariant
            i <= classes@.len(),
            v == classes.deep_view(),
            av == a.deep_view(),
            own.deep_view() == names_from(av.methods, 0, seq![]),
            twin_from(v, av, 0) == twin_from(v, av, i as int),
        decreases classes@.len() - i,
    {
        let c = classes[i];
        assert(v[i as int] == c.deep_view());
        if c.name.alike(&a.name) && names(&c.methods).alike(&own) {
            return Some(c);
        }
        i += 1;
    }
    None
}

fn local(id: &String) -> (r: String)
    ensures
        r@ == local_name(id@),
{
    match text::rsplit_once(id, "::") {
        Some((_, q)) => q,
        None => id.dup(),
    }
}

fn method_ending(methods: &Vec<String>, suffix: &String) -> (r: Option<String>)
    ensures
        r.deep_view() == method_from(methods.deep_view(), suffix@, 0),
{
    let ghost v = methods.deep_view();
    let mut i: usize = 0;
    while i < methods.len()
        invariant
            i <= methods@.len(),
            v == methods.deep_view(),
            method_from(v, suffix@, 0) == method_from(v, suffix@, i as int),
        decreases methods@.len() - i,
    {
        if text::ends_with(&methods[i], suffix) {
            return Some(methods[i].dup());
        }
        i += 1;
    }
    None
}

fn add_methods(before: &Vec<String>, after: &Vec<String>, forward: &mut SortedMap<String, String>)
    ensures
        final(forward).deep_view() == methods_from(
            before.deep_view(),
            after.deep_view(),
            0,
            old(forward).deep_view(),
        ),
{
    let ghost bv = before.deep_view();
    let ghost av = after.deep_view();
    let ghost start = forward.deep_view();
    let mut i: usize = 0;
    while i < before.len()
        invariant
            i <= before@.len(),
            bv == before.deep_view(),
            av == after.deep_view(),
            methods_from(bv, av, i as int, forward.deep_view()) == methods_from(bv, av, 0, start),
        decreases before@.len() - i,
    {
        let suffix = text::cat2("::", &local(&before[i]));
        if let Some(id) = method_ending(after, &suffix) {
            forward.insert(before[i].dup(), id);
        }
        i += 1;
    }
}

fn add_classes(a: &Model, b: &Model, m: &mut Matching)
    ensures
        final(m).deep_view() == classes_from(
            only_here(a.deep_view().classes, b.deep_view().classes, 0),
            only_here(b.deep_view().classes, a.deep_view().classes, 0),
            0,
            old(m).deep_view(),
        ),
{
    let gone = only_in(&a.classes, &b.classes);
    let fresh = only_in(&b.classes, &a.classes);
    let ghost gv = gone.deep_view();
    let ghost fv = fresh.deep_view();
    let ghost start = m.deep_view();
    let mut i: usize = 0;
    while i < gone.len()
        invariant
            i <= gone@.len(),
            gv == gone.deep_view(),
            fv == fresh.deep_view(),
            classes_from(gv, fv, i as int, m.deep_view()) == classes_from(gv, fv, 0, start),
        decreases gone@.len() - i,
    {
        let c = gone[i];
        assert(gv[i as int] == c.deep_view());
        if let Some(d) = twin(&fresh, c) {
            m.moved_classes.insert(c.id.dup(), d.id.dup());
            add_methods(&c.methods, &d.methods, &mut m.forward);
        }
        i += 1;
    }
}

fn values_of(pairs: &SortedMap<String, String>) -> (r: SortedSet<String>)
    ensures
        forall|id: Text| #[trigger]
            r.deep_view().contains(id) == is_value(pairs.deep_view(), id),
{
    let ghost pv = pairs.deep_view();
    let mut out: SortedSet<String> = SortedSet::new();
    let mut i: usize = 0;
    while i < pairs.len()
        invariant
            i <= pv.len(),
            pv == pairs.deep_view(),
            forall|id: Text| #[trigger]
                out.deep_view().contains(id) == (exists|k: int|
                    0 <= k < i && (#[trigger] pv[k]).1 == id),
        decreases pv.len() - i,
    {
        let ghost before = out.deep_view();
        out.in_order();
        out.insert(pairs.value(i).dup());
        proof {
            assert forall|id: Text| #[trigger]
                out.deep_view().contains(id) == (exists|k: int|
                    0 <= k < i + 1 && (#[trigger] pv[k]).1 == id) by {
                crate::ordered::added_members(before, pv[i as int].1, id);
                if pv[i as int].1 == id {
                    assert(pv[i as int].1 == id);
                }
                assert(before.contains(id) == (exists|k: int|
                    0 <= k < i && (#[trigger] pv[k]).1 == id));
            }
        }
        i += 1;
    }
    out
}

fn unmatched<'m>(
    entities: &'m SortedMap<String, Entity>,
    forward: &SortedMap<String, String>,
) -> (r: Vec<(&'m String, &'m Entity)>)
    ensures
        r.deep_view() == unmatched_from(entities.deep_view(), forward.deep_view(), 0),
{
    let ghost ev = entities.deep_view();
    let ghost fv = forward.deep_view();
    let taken = values_of(forward);
    let mut out: Vec<(&'m String, &'m Entity)> = list::empty();
    let mut i: usize = 0;
    while i < entities.len()
        invariant
            i <= ev.len(),
            ev == entities.deep_view(),
            forall|id: Text| #[trigger] taken.deep_view().contains(id) == is_value(fv, id),
            out.deep_view() + unmatched_from(ev, fv, i as int) == unmatched_from(ev, fv, 0),
        decreases ev.len() - i,
    {
        if !taken.contains(entities.key(i)) {
            let ghost prior = out.deep_view();
            list::push(&mut out, (entities.key(i), entities.value(i)));
            assert(out.deep_view() =~= prior + seq![ev[i as int]]);
        }
        i += 1;
    }
    out
}

fn same_free_function(unmatched: &Vec<(&String, &Entity)>, e: &Entity) -> (r: Option<String>)
    ensures
        r.deep_view() == function_from(unmatched.deep_view(), e.deep_view(), 0),
{
    let ghost v = unmatched.deep_view();
    let ghost ev = e.deep_view();
    let mut i: usize = 0;
    while i < unmatched.len()
        invariant
            i <= unmatched@.len(),
            v == unmatched.deep_view(),
            ev == e.deep_view(),
            function_from(v, ev, 0) == function_from(v, ev, i as int),
        decreases unmatched@.len() - i,
    {
        let f = unmatched[i].1;
        assert(v[i as int] == (unmatched@[i as int].0@, f.deep_view()));
        if f.class.is_none() && f.parent.is_none() && f.body_hash.alike(&e.body_hash) && (
        f.name.alike(&e.name) || f.module.alike(&e.module)) {
            return Some(unmatched[i].0.dup());
        }
        i += 1;
    }
    None
}

fn add_functions(a: &Model, b: &Model, m: &mut Matching)
    ensures
        final(m).deep_view() == functions_from(
            a.deep_view().entities,
            unmatched_from(b.deep_view().entities, old(m).deep_view().forward, 0),
            0,
            old(m).deep_view(),
        ),
{
    let ghost av = a.deep_view().entities;
    let ghost start = m.deep_view();
    let rest = unmatched(&b.entities, &m.forward);
    let ghost rv = rest.deep_view();
    let mut i: usize = 0;
    while i < a.entities.len()
        invariant
            i <= av.len(),
            av == a.deep_view().entities,
            rv == rest.deep_view(),
            functions_from(av, rv, i as int, m.deep_view()) == functions_from(av, rv, 0, start),
        decreases av.len() - i,
    {
        let id = a.entities.key(i);
        let e = a.entities.value(i);
        if !m.forward.contains_key(id) && e.class.is_none() && e.parent.is_none() {
            if let Some(idb) = same_free_function(&rest, e) {
                m.forward.insert(id.dup(), idb.dup());
                m.moved_functions.insert(id.dup(), idb);
            }
        }
        i += 1;
    }
}

fn add_closures_of(a: &Model, b: &Model, pair: (&String, &String), forward: &mut SortedMap<
    String,
    String,
>)
    ensures
        final(forward).deep_view() == closures_of(
            a.deep_view().entities,
            b.deep_view().entities,
            (pair.0@, pair.1@),
            0,
            old(forward).deep_view(),
        ),
{
    let ghost av = a.deep_view().entities;
    let ghost bv = b.deep_view().entities;
    let ghost pv = (pair.0@, pair.1@);
    let ghost start = forward.deep_view();
    let prefix = text::cat2(pair.0, ".");
    let mut i: usize = 0;
    while i < a.entities.len()
        invariant
            i <= av.len(),
            av == a.deep_view().entities,
            bv == b.deep_view().entities,
            pv == (pair.0@, pair.1@),
            prefix@ == pair.0@ + "."@,
            closures_of(av, bv, pv, i as int, forward.deep_view()) == closures_of(
                av,
                bv,
                pv,
                0,
                start,
            ),
        decreases av.len() - i,
    {
        let id = a.entities.key(i);
        if let Some(tail) = text::strip_prefix(id, &prefix) {
            let idb = text::cat3(pair.1, ".", &tail);
            if b.entities.contains_key(&idb) {
                forward.insert(id.dup(), idb);
            }
        }
        i += 1;
    }
}

fn add_closures(a: &Model, b: &Model, m: &mut Matching)
    ensures
        final(m).deep_view() == (MatchingView {
            forward: closures_from(
                a.deep_view().entities,
                b.deep_view().entities,
                old(m).deep_view().forward,
                0,
                old(m).deep_view().forward,
            ),
            ..old(m).deep_view()
        }),
{
    let ghost av = a.deep_view().entities;
    let ghost bv = b.deep_view().entities;
    let ghost start = m.deep_view();
    let pairs = m.forward.dup();
    let ghost pv = pairs.deep_view();
    let mut i: usize = 0;
    while i < pairs.len()
        invariant
            i <= pv.len(),
            av == a.deep_view().entities,
            bv == b.deep_view().entities,
            pv == pairs.deep_view(),
            m.deep_view() == (MatchingView { forward: m.deep_view().forward, ..start }),
            closures_from(av, bv, pv, i as int, m.deep_view().forward) == closures_from(
                av,
                bv,
                pv,
                0,
                start.forward,
            ),
        decreases pv.len() - i,
    {
        if !pairs.key(i).alike(pairs.value(i)) {
            add_closures_of(a, b, (pairs.key(i), pairs.value(i)), &mut m.forward);
        }
        i += 1;
    }
}

fn votes(a: &Model, b: &Model, pairs: &SortedMap<String, String>) -> (r: SortedMap<
    String,
    SortedSet<String>,
>)
    ensures
        r.deep_view() == votes_from(
            a.deep_view().entities,
            b.deep_view().entities,
            pairs.deep_view(),
            0,
            seq![],
        ),
{
    let ghost av = a.deep_view().entities;
    let ghost bv = b.deep_view().entities;
    let ghost pv = pairs.deep_view();
    let mut out: SortedMap<String, SortedSet<String>> = SortedMap::new();
    let mut i: usize = 0;
    while i < pairs.len()
        invariant
            i <= pv.len(),
            av == a.deep_view().entities,
            bv == b.deep_view().entities,
            pv == pairs.deep_view(),
            votes_from(av, bv, pv, i as int, out.deep_view()) == votes_from(
                av,
                bv,
                pv,
                0,
                seq![],
            ),
        decreases pv.len() - i,
    {
        if let Some(ea) = a.entities.get(pairs.key(i)) {
            if let Some(eb) = b.entities.get(pairs.value(i)) {
                let mut ms = match out.get(&ea.module) {
                    Some(ms) => ms.dup(),
                    None => SortedSet::new(),
                };
                ms.insert(eb.module.dup());
                out.insert(ea.module.dup(), ms);
            }
        }
        i += 1;
    }
    out
}

fn module_exists(entities: &SortedMap<String, Entity>, module: &String) -> (r: bool)
    ensures
        r == has_module(entities.deep_view(), module@),
{
    let ghost ev = entities.deep_view();
    let mut i: usize = 0;
    while i < entities.len()
        invariant
            i <= ev.len(),
            ev == entities.deep_view(),
            forall|k: int| 0 <= k < i ==> (#[trigger] ev[k]).1.module != module@,
        decreases ev.len() - i,
    {
        if entities.value(i).module.alike(module) {
            assert(ev[i as int].1.module == module@);
            return true;
        }
        i += 1;
    }
    false
}

fn add_modules(a: &Model, b: &Model, m: &mut Matching)
    ensures
        final(m).deep_view() == (MatchingView {
            modules: modules_from(
                b.deep_view().entities,
                votes_from(
                    a.deep_view().entities,
                    b.deep_view().entities,
                    old(m).deep_view().forward,
                    0,
                    seq![],
                ),
                0,
                old(m).deep_view().modules,
            ),
            ..old(m).deep_view()
        }),
{
    let ghost bv = b.deep_view().entities;
    let ghost start = m.deep_view();
    let all = votes(a, b, &m.forward);
    let ghost vv = all.deep_view();
    let mut i: usize = 0;
    while i < all.len()
        invariant
            i <= vv.len(),
            bv == b.deep_view().entities,
            vv == all.deep_view(),
            m.deep_view() == (MatchingView { modules: m.deep_view().modules, ..start }),
            modules_from(bv, vv, i as int, m.deep_view().modules) == modules_from(
                bv,
                vv,
                0,
                start.modules,
            ),
        decreases vv.len() - i,
    {
        let targets = all.value(i);
        if targets.len() == 1 && !module_exists(&b.entities, all.key(i)) {
            m.modules.insert(all.key(i).dup(), targets.item(0).dup());
        }
        i += 1;
    }
}

fn reversed(pairs: &SortedMap<String, String>) -> (r: SortedMap<String, String>)
    ensures
        r.deep_view() == reversed_from(pairs.deep_view(), 0, seq![]),
{
    let ghost pv = pairs.deep_view();
    let mut out: SortedMap<String, String> = SortedMap::new();
    let mut i: usize = 0;
    while i < pairs.len()
        invariant
            i <= pv.len(),
            pv == pairs.deep_view(),
            reversed_from(pv, i as int, out.deep_view()) == reversed_from(pv, 0, seq![]),
        decreases pv.len() - i,
    {
        out.insert(pairs.value(i).dup(), pairs.key(i).dup());
        i += 1;
    }
    out
}

/// Matches the entities of two versions: by id, then classes that reappeared elsewhere with
/// the same name and methods, then free functions with the same body that kept their name or
/// their module, then the closures of all these.
pub fn match_entities(a: &Model, b: &Model) -> (r: Matching)
    ensures
        r.deep_view() == matched(a.deep_view(), b.deep_view()),
{
    let ghost av = a.deep_view().entities;
    let ghost bv = b.deep_view().entities;
    let mut m = Matching::default();
    let mut i: usize = 0;
    while i < a.entities.len()
        invariant
            i <= av.len(),
            av == a.deep_view().entities,
            bv == b.deep_view().entities,
            m.deep_view() == (MatchingView { forward: m.deep_view().forward, ..no_match() }),
            kept_from(av, bv, i as int, m.deep_view().forward) == kept_from(av, bv, 0, seq![]),
        decreases av.len() - i,
    {
        let id = a.entities.key(i);
        if b.entities.contains_key(id) {
            m.forward.insert(id.dup(), id.dup());
        }
        i += 1;
    }
    add_classes(a, b, &mut m);
    add_functions(a, b, &mut m);
    add_closures(a, b, &mut m);
    add_modules(a, b, &mut m);
    m.backward = reversed(&m.forward);
    m
}

} // verus!
