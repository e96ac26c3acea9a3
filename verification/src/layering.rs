//! Declared design: a module belongs to the first layer that covers it, and what breaks a rule
//! is found, and nothing else.

use crate::design::{
    covers, foreign_writes, layer_from, layer_violations, layers_from, writes_of, RuleView,
};
use crate::ir::LocView;
use crate::model::{EntityView, ViolationView, WriteFactView};
use crate::ordered::{ascending, lookup, lookup_after_put, lookup_of_other, put, put_keeps_order};
use crate::text::Text;
use vstd::prelude::*;

verus! {

/// The layer of a module is the first, in the order of the file, that covers it.
pub open spec fn is_layer_of(layers: Seq<(Text, Seq<Text>)>, n: int, module: Text) -> bool {
    &&& 0 <= n < layers.len()
    &&& covers(layers[n].1, module)
    &&& forall|k: int| 0 <= k < n ==> !covers((#[trigger] layers[k]).1, module)
}

proof fn layer_is_first(layers: Seq<(Text, Seq<Text>)>, module: Text, i: int)
    requires
        0 <= i <= layers.len(),
        forall|k: int| 0 <= k < i ==> !covers((#[trigger] layers[k]).1, module),
    ensures
        match layer_from(layers, module, i) {
            Some(l) => exists|n: int| #[trigger] is_layer_of(layers, n, module) && layers[n].0 == l,
            None => forall|k: int|
                0 <= k < layers.len() ==> !covers((#[trigger] layers[k]).1, module),
        },
    decreases layers.len() - i,
{
    if i < layers.len() {
        if covers(layers[i].1, module) {
            assert(is_layer_of(layers, i, module));
        } else {
            layer_is_first(layers, module, i + 1);
        }
    }
}

/// Each module with entities that a layer covers is in the first such layer; no layer covers the
/// others.
pub proof fn modules_are_in_their_layers(
    entities: Seq<(Text, EntityView)>,
    layers: Seq<(Text, Seq<Text>)>,
    n: int,
)
    requires
        0 <= n < entities.len(),
    ensures
        ({
            let module = entities[n].1.module;
            match lookup(layers_from(entities, layers, 0, seq![]), module) {
                Some(l) => exists|k: int| #[trigger] is_layer_of(layers, k, module) && layers[k].0 == l,
                None => forall|k: int|
                    0 <= k < layers.len() ==> !covers((#[trigger] layers[k]).1, module),
            }
        }),
{
    let none = Seq::<(Text, Text)>::empty();
    assert(none =~= seq![]);
    layers_are_placed(entities, layers, 0, none, n);
    layer_is_first(layers, entities[n].1.module, 0);
}

proof fn layers_are_placed(
    entities: Seq<(Text, EntityView)>,
    layers: Seq<(Text, Seq<Text>)>,
    i: int,
    acc: Seq<(Text, Text)>,
    n: int,
)
    requires
        ascending(acc),
        0 <= i <= entities.len(),
        0 <= n < entities.len(),
        n >= i || lookup(acc, entities[n].1.module) == layer_from(layers, entities[n].1.module, 0),
        lookup(acc, entities[n].1.module) is None || lookup(acc, entities[n].1.module) == layer_from(
            layers,
            entities[n].1.module,
            0,
        ),
    ensures
        lookup(layers_from(entities, layers, i, acc), entities[n].1.module) == layer_from(
            layers,
            entities[n].1.module,
            0,
        ),
    decreases entities.len() - i,
{
    if i < entities.len() {
        let module = entities[i].1.module;
        match layer_from(layers, module, 0) {
            Some(l) => {
                let next = put(acc, module, l);
                put_keeps_order(acc, module, l);
                lookup_after_put(acc, module, l);
                if module != entities[n].1.module {
                    lookup_of_other(acc, module, l, entities[n].1.module);
                }
                layers_are_placed(entities, layers, i + 1, next, n);
            },
            None => {
                layers_are_placed(entities, layers, i + 1, acc, n);
            },
        }
    }
}

/// Some rule denies one layer to another.
pub open spec fn is_denied(rules: Seq<RuleView>, from: Text, to: Text) -> bool {
    exists|i: int|
        0 <= i < rules.len() && (#[trigger] rules[i]).from == from && rules[i].deny.contains(to)
}

/// A violation is that of a dependency between two layers that a rule denies.
pub open spec fn is_breach_of(
    v: ViolationView,
    d: ((Text, Text), Seq<LocView>),
    layers: Seq<(Text, Text)>,
    rules: Seq<RuleView>,
) -> bool {
    &&& lookup(layers, d.0.0) matches Some(from) && lookup(layers, d.0.1) matches Some(to)
        && is_denied(rules, from, to) && v.subject == from + " → "@ + to
    &&& v.kind == "layer"@
    &&& v.detail == d.0.0 + " → "@ + d.0.1
    &&& v.evidence == d.1
}

/// A dependency breaks a rule.
pub open spec fn breaks(
    d: ((Text, Text), Seq<LocView>),
    layers: Seq<(Text, Text)>,
    rules: Seq<RuleView>,
) -> bool {
    lookup(layers, d.0.0) matches Some(from) && lookup(layers, d.0.1) matches Some(to) && is_denied(
        rules,
        from,
        to,
    )
}

/// Some violation is that of a dependency.
pub open spec fn is_reported(
    vs: Seq<ViolationView>,
    d: ((Text, Text), Seq<LocView>),
    layers: Seq<(Text, Text)>,
    rules: Seq<RuleView>,
) -> bool {
    exists|j: int| 0 <= j < vs.len() && is_breach_of(#[trigger] vs[j], d, layers, rules)
}

/// Every dependency that breaks a rule is a violation, and every violation of a layer is that of
/// a dependency which breaks a rule.
pub proof fn layers_are_guarded(
    deps: Seq<((Text, Text), Seq<LocView>)>,
    layers: Seq<(Text, Text)>,
    rules: Seq<RuleView>,
)
    ensures
        forall|n: int|
            0 <= n < deps.len() && breaks(#[trigger] deps[n], layers, rules) ==> is_reported(
                layer_violations(deps, layers, rules, 0),
                deps[n],
                layers,
                rules,
            ),
        forall|j: int|
            0 <= j < layer_violations(deps, layers, rules, 0).len() ==> is_from_one(
                #[trigger] layer_violations(deps, layers, rules, 0)[j],
                deps,
                layers,
                rules,
                0,
            ),
{
    layers_are_guarded_from(deps, layers, rules, 0);
}

/// A violation is that of one of the dependencies from index `i` on.
pub open spec fn is_from_one(
    v: ViolationView,
    deps: Seq<((Text, Text), Seq<LocView>)>,
    layers: Seq<(Text, Text)>,
    rules: Seq<RuleView>,
    i: int,
) -> bool {
    exists|n: int| i <= n < deps.len() && is_breach_of(v, #[trigger] deps[n], layers, rules)
}

proof fn layers_are_guarded_from(
    deps: Seq<((Text, Text), Seq<LocView>)>,
    layers: Seq<(Text, Text)>,
    rules: Seq<RuleView>,
    i: int,
)
    requires
        0 <= i,
    ensures
        forall|n: int|
            i <= n < deps.len() && breaks(#[trigger] deps[n], layers, rules) ==> is_reported(
                layer_violations(deps, layers, rules, i),
                deps[n],
                layers,
                rules,
            ),
        forall|j: int|
            0 <= j < layer_violations(deps, layers, rules, i).len() ==> is_from_one(
                #[trigger] layer_violations(deps, layers, rules, i)[j],
                deps,
                layers,
                rules,
                i,
            ),
    decreases deps.len() - i,
{
    if i < deps.len() {
        layers_are_guarded_from(deps, layers, rules, i + 1);
        let rest = layer_violations(deps, layers, rules, i + 1);
        let all = layer_violations(deps, layers, rules, i);
        let h = all.len() - rest.len();
        assert forall|n: int|
            i <= n < deps.len() && breaks(#[trigger] deps[n], layers, rules) implies is_reported(
            all,
            deps[n],
            layers,
            rules,
        ) by {
            if n == i {
                assert(is_breach_of(all[0], deps[n], layers, rules));
            } else {
                assert(is_reported(rest, deps[n], layers, rules));
                let j = choose|j: int|
                    0 <= j < rest.len() && is_breach_of(#[trigger] rest[j], deps[n], layers, rules);
                assert(all[h + j] == rest[j]);
            }
        }
        assert forall|j: int| 0 <= j < all.len() implies is_from_one(
            #[trigger] all[j],
            deps,
            layers,
            rules,
            i,
        ) by {
            if j < h {
                assert(is_breach_of(all[j], deps[i], layers, rules));
            } else {
                assert(all[j] == rest[j - h]);
                assert(is_from_one(rest[j - h], deps, layers, rules, i + 1));
                let n = choose|n: int|
                    i + 1 <= n < deps.len() && is_breach_of(
                        rest[j - h],
                        #[trigger] deps[n],
                        layers,
                        rules,
                    );
                assert(is_breach_of(all[j], deps[n], layers, rules));
            }
        }
    }
}

/// An entity writes a field from a module that does not own it.
pub open spec fn trespasses(e: EntityView, field: Text, owners: Seq<Text>) -> bool {
    !covers(owners, e.module) && exists|k: int|
        0 <= k < e.writes.len() && (#[trigger] e.writes[k]).field == field
}

/// A violation is that of an entity which writes a field that others own.
pub open spec fn is_trespass_of(v: ViolationView, e: EntityView, field: Text, owners: Seq<Text>) -> bool {
    trespasses(e, field, owners) && v.kind == "ownership"@ && v.subject == field && v.detail == e.id
        && v.evidence.len() > 0
}

proof fn places_of_writes(writes: Seq<WriteFactView>, field: Text, i: int)
    requires
        0 <= i,
    ensures
        writes_of(writes, field, i).len() > 0 <==> exists|k: int|
            i <= k < writes.len() && (#[trigger] writes[k]).field == field,
    decreases writes.len() - i,
{
    if i < writes.len() {
        places_of_writes(writes, field, i + 1);
        if exists|k: int| i + 1 <= k < writes.len() && (#[trigger] writes[k]).field == field {
            let k = choose|k: int| i + 1 <= k < writes.len() && (#[trigger] writes[k]).field == field;
            assert(writes[k].field == field);
        }
        if exists|k: int| i <= k < writes.len() && (#[trigger] writes[k]).field == field {
            let k = choose|k: int| i <= k < writes.len() && (#[trigger] writes[k]).field == field;
            if k > i {
                assert(i + 1 <= k);
            }
        }
        if writes[i].field == field {
            assert(writes[i].field == field);
        }
    }
}

/// Every entity that writes a field from a module which does not own it is a violation, and every
/// violation of ownership is that of such an entity.
pub proof fn fields_are_guarded(
    entities: Seq<(Text, EntityView)>,
    field: Text,
    owners: Seq<Text>,
    i: int,
)
    requires
        0 <= i,
    ensures
        forall|n: int|
            i <= n < entities.len() && trespasses((#[trigger] entities[n]).1, field, owners)
                ==> is_caught(
                foreign_writes(entities, field, owners, i),
                entities[n].1,
                field,
                owners,
            ),
        forall|j: int|
            0 <= j < foreign_writes(entities, field, owners, i).len() ==> is_by_one(
                #[trigger] foreign_writes(entities, field, owners, i)[j],
                entities,
                field,
                owners,
                i,
            ),
    decreases entities.len() - i,
{
    if i < entities.len() {
        fields_are_guarded(entities, field, owners, i + 1);
        let rest = foreign_writes(entities, field, owners, i + 1);
        let all = foreign_writes(entities, field, owners, i);
        let h = all.len() - rest.len();
        places_of_writes(entities[i].1.writes, field, 0);
        assert forall|n: int|
            i <= n < entities.len() && trespasses((#[trigger] entities[n]).1, field, owners) implies
            is_caught(all, entities[n].1, field, owners) by {
            if n == i {
                assert(is_trespass_of(all[0], entities[n].1, field, owners));
            } else {
                assert(is_caught(rest, entities[n].1, field, owners));
                let j = choose|j: int|
                    0 <= j < rest.len() && is_trespass_of(
                        #[trigger] rest[j],
                        entities[n].1,
                        field,
                        owners,
                    );
                assert(all[h + j] == rest[j]);
            }
        }
        assert forall|j: int| 0 <= j < all.len() implies is_by_one(
            #[trigger] all[j],
            entities,
            field,
            owners,
            i,
        ) by {
            if j < h {
                assert(is_trespass_of(all[j], entities[i].1, field, owners));
            } else {
                assert(all[j] == rest[j - h]);
                assert(is_by_one(rest[j - h], entities, field, owners, i + 1));
                let n = choose|n: int|
                    i + 1 <= n < entities.len() && is_trespass_of(
                        rest[j - h],
                        (#[trigger] entities[n]).1,
                        field,
                        owners,
                    );
                assert(is_trespass_of(all[j], entities[n].1, field, owners));
            }
        }
    }
}

/// Some violation is that of an entity.
pub open spec fn is_caught(
    vs: Seq<ViolationView>,
    e: EntityView,
    field: Text,
    owners: Seq<Text>,
) -> bool {
    exists|j: int| 0 <= j < vs.len() && is_trespass_of(#[trigger] vs[j], e, field, owners)
}

/// A violation is that of one of the entities from index `i` on.
pub open spec fn is_by_one(
    v: ViolationView,
    entities: Seq<(Text, EntityView)>,
    field: Text,
    owners: Seq<Text>,
    i: int,
) -> bool {
    exists|n: int|
        i <= n < entities.len() && is_trespass_of(v, (#[trigger] entities[n]).1, field, owners)
}

} // verus!
