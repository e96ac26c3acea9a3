//! Builds the behaviour model of one program version from its structure: effects, guards,
//! state machines, summaries, inferred invariants and declared design rules.

use crate::catalog::{extended, outcome, Catalog, CatalogView};
use crate::design;
use crate::design::{applied, declared, nothing_declared, Config, ConfigView};
use crate::entity::{entity_of, extract_entity};
use crate::envs::{build_envs, envs_of};
use crate::infer::{mine, mined};
use crate::ir::{ClassView, FunctionView, Loc, LocView, Module, ModuleView, Program, ProgramView};
use crate::list;
use crate::list::Plain;
use crate::model::{
    empty_model, CallFactView, ClassInfo, ClassInfoView, Entity, EntityView, Model, ModelView,
    SchemaFactView, WriteFactView,
};
use crate::ordered::{added, lookup, put, SortedMap, SortedSet};
use crate::query::{Scene, SceneView};
use crate::resolve::{domain_from, index_of, Index};
use crate::schema;
use crate::schema::schemas_in;
use crate::summary;
use crate::summary::{complete, summarised};
use crate::text;
use crate::text::Text;
use vstd::prelude::*;

verus! {

/// The model with the classes from index `i` on.
pub open spec fn with_classes(m: ModelView, classes: Seq<ClassView>, path: Text, i: int) -> ModelView
    decreases classes.len() - i,
{
    if 0 <= i < classes.len() {
        let c = classes[i];
        with_classes(
            ModelView {
                classes: put(
                    m.classes,
                    c.id,
                    ClassInfoView {
                        id: c.id,
                        name: c.name,
                        module: path,
                        methods: c.methods,
                        loc: c.loc,
                    },
                ),
                ..m
            },
            classes,
            path,
            i + 1,
        )
    } else {
        m
    }
}

/// The model with an entity.
pub open spec fn with_entity(m: ModelView, e: EntityView) -> ModelView {
    ModelView {
        routes: m.routes + e.routes,
        subscriptions: m.subscriptions + e.subscriptions,
        entities: put(m.entities, e.id, e),
        ..m
    }
}

/// The model with the functions from index `i` on.
pub open spec fn with_functions(m: ModelView, k: SceneView, fs: Seq<FunctionView>, i: int) -> ModelView
    decreases fs.len() - i,
{
    if 0 <= i < fs.len() {
        with_functions(with_entity(m, entity_of(k, fs[i])), k, fs, i + 1)
    } else {
        m
    }
}

/// The model with the schemas from index `i` on.
pub open spec fn with_schemas(m: ModelView, found: Seq<(Text, SchemaFactView)>, i: int) -> ModelView
    decreases found.len() - i,
{
    if 0 <= i < found.len() {
        with_schemas(
            ModelView { schemas: put(m.schemas, found[i].0, found[i].1), ..m },
            found,
            i + 1,
        )
    } else {
        m
    }
}

/// The model with what a module declares.
pub open spec fn with_module(m: ModelView, k: SceneView, module: ModuleView) -> ModelView {
    with_schemas(
        with_functions(with_classes(m, module.classes, module.path, 0), k, module.functions, 0),
        schemas_in(k.ix, k.cat, module),
        0,
    )
}

/// The model with the modules from index `i` on.
pub open spec fn with_modules(m: ModelView, k: SceneView, modules: Seq<(Text, ModuleView)>, i: int) -> ModelView
    decreases modules.len() - i,
{
    if 0 <= i < modules.len() {
        with_modules(with_module(m, k, modules[i].1), k, modules, i + 1)
    } else {
        m
    }
}

/// The fields that the writes from index `i` on write, added to `acc`.
pub open spec fn fields_in(writes: Seq<WriteFactView>, i: int, acc: Seq<Text>) -> Seq<Text>
    decreases writes.len() - i,
{
    if 0 <= i < writes.len() {
        fields_in(writes, i + 1, added(acc, writes[i].field))
    } else {
        acc
    }
}

/// The fields that the entities from index `i` on write, added to `acc`.
pub open spec fn fields_written(entities: Seq<(Text, EntityView)>, i: int, acc: Seq<Text>) -> Seq<Text>
    decreases entities.len() - i,
{
    if 0 <= i < entities.len() {
        fields_written(entities, i + 1, fields_in(entities[i].1.writes, 0, acc))
    } else {
        acc
    }
}

/// The finite domains of the fields from index `i` on, added to `acc`.
pub open spec fn domains_of(
    p: ProgramView,
    fields: Seq<Text>,
    i: int,
    acc: Seq<(Text, Seq<Text>)>,
) -> Seq<(Text, Seq<Text>)>
    decreases fields.len() - i,
{
    if 0 <= i < fields.len() {
        domains_of(
            p,
            fields,
            i + 1,
            match text::parted(fields[i], "."@) {
                Some((record, field)) => match domain_from(p, record, field, 0) {
                    Some(d) => put(acc, fields[i], d),
                    None => acc,
                },
                None => acc,
            },
        )
    } else {
        acc
    }
}

/// The module dependencies with one more call site.
pub open spec fn with_site(
    deps: Seq<((Text, Text), Seq<LocView>)>,
    k: (Text, Text),
    loc: LocView,
) -> Seq<((Text, Text), Seq<LocView>)> {
    put(
        deps,
        k,
        (match lookup(deps, k) {
            Some(sites) => sites,
            None => seq![],
        }).push(loc),
    )
}

/// The module dependencies with the calls from index `i` on of an entity in `module`.
pub open spec fn deps_of(
    entities: Seq<(Text, EntityView)>,
    module: Text,
    calls: Seq<CallFactView>,
    i: int,
    acc: Seq<((Text, Text), Seq<LocView>)>,
) -> Seq<((Text, Text), Seq<LocView>)>
    decreases calls.len() - i,
{
    if 0 <= i < calls.len() {
        deps_of(
            entities,
            module,
            calls,
            i + 1,
            match lookup(entities, calls[i].target) {
                Some(target) => if target.module != module {
                    with_site(acc, (module, target.module), calls[i].loc)
                } else {
                    acc
                },
                None => acc,
            },
        )
    } else {
        acc
    }
}

/// The module dependencies of the entities from index `i` on, added to `acc`.
pub open spec fn deps_from(
    entities: Seq<(Text, EntityView)>,
    i: int,
    acc: Seq<((Text, Text), Seq<LocView>)>,
) -> Seq<((Text, Text), Seq<LocView>)>
    decreases entities.len() - i,
{
    if 0 <= i < entities.len() {
        let e = entities[i].1;
        deps_from(entities, i + 1, deps_of(entities, e.module, e.calls, 0, acc))
    } else {
        acc
    }
}

/// The facts that a program states directly.
pub open spec fn stated(p: ProgramView, cat: CatalogView) -> ModelView {
    let ix = index_of(p);
    let k = SceneView { ix, cat, envs: envs_of(ix, cat) };
    let m = with_modules(empty_model(), k, p.modules, 0);
    ModelView {
        field_domains: domains_of(p, fields_written(m.entities, 0, seq![]), 0, m.field_domains),
        module_deps: deps_from(m.entities, 0, m.module_deps),
        ..m
    }
}

/// The model of a program under a declared design.
pub open spec fn modelled(p: ProgramView, config: ConfigView) -> ModelView {
    let m = summarised(stated(p, extended(config.catalog)));
    applied(ModelView { invariants: mined(m), ..m }, config)
}

/// The model of a program, or what is wrong with its declared design.
pub open spec fn analyzed(p: ProgramView, config: Option<Text>) -> Result<ModelView, Text> {
    match config {
        Some(text) => match declared(text) {
            Ok(c) => Ok(modelled(p, c)),
            Err(e) => Err("merak.toml: "@ + e),
        },
        None => Ok(modelled(p, nothing_declared())),
    }
}

// ---- laws

/// Every entity stands under its id.
pub open spec fn keyed(m: ModelView) -> bool {
    forall|i: int|
        0 <= i < m.entities.len() ==> (#[trigger] m.entities[i]).0 == m.entities[i].1.id
}

proof fn classes_keep(m: ModelView, classes: Seq<ClassView>, path: Text, i: int)
    ensures
        with_classes(m, classes, path, i).entities == m.entities,
    decreases classes.len() - i,
{
    if 0 <= i < classes.len() {
        let c = classes[i];
        classes_keep(
            ModelView {
                classes: put(
                    m.classes,
                    c.id,
                    ClassInfoView {
                        id: c.id,
                        name: c.name,
                        module: path,
                        methods: c.methods,
                        loc: c.loc,
                    },
                ),
                ..m
            },
            classes,
            path,
            i + 1,
        );
    }
}

proof fn schemas_keep(m: ModelView, found: Seq<(Text, SchemaFactView)>, i: int)
    ensures
        with_schemas(m, found, i).entities == m.entities,
    decreases found.len() - i,
{
    if 0 <= i < found.len() {
        schemas_keep(
            ModelView { schemas: put(m.schemas, found[i].0, found[i].1), ..m },
            found,
            i + 1,
        );
    }
}

proof fn functions_keep(m: ModelView, k: SceneView, fs: Seq<FunctionView>, i: int)
    requires
        keyed(m),
    ensures
        keyed(with_functions(m, k, fs, i)),
    decreases fs.len() - i,
{
    if 0 <= i < fs.len() {
        let e = entity_of(k, fs[i]);
        crate::ordered::slot_bounds(m.entities, e.id);
        assert(keyed(with_entity(m, e)));
        functions_keep(with_entity(m, e), k, fs, i + 1);
    }
}

proof fn modules_keep(m: ModelView, k: SceneView, modules: Seq<(Text, ModuleView)>, i: int)
    requires
        keyed(m),
    ensures
        keyed(with_modules(m, k, modules, i)),
    decreases modules.len() - i,
{
    if 0 <= i < modules.len() {
        let module = modules[i].1;
        classes_keep(m, module.classes, module.path, 0);
        let a = with_classes(m, module.classes, module.path, 0);
        functions_keep(a, k, module.functions, 0);
        let b = with_functions(a, k, module.functions, 0);
        schemas_keep(b, schemas_in(k.ix, k.cat, module), 0);
        modules_keep(with_module(m, k, module), k, modules, i + 1);
    }
}

/// In the model of any program every entity stands under its id and has a summary, and nothing
/// else has one.
pub proof fn models_are_whole(p: ProgramView, config: ConfigView)
    ensures
        keyed(modelled(p, config)),
        complete(modelled(p, config)),
        summary::are_of_entities(modelled(p, config).entities, modelled(p, config).summaries),
{
    let cat = extended(config.catalog);
    let ix = index_of(p);
    modules_keep(
        empty_model(),
        SceneView { ix, cat, envs: envs_of(ix, cat) },
        p.modules,
        0,
    );
    summary::every_entity_is_summarised(stated(p, cat));
}

// ---- execution

fn add_module(model: &mut Model, scene: &Scene, m: &Module)
    ensures
        final(model).deep_view() == with_module(
            old(model).deep_view(),
            scene.deep_view(),
            m.deep_view(),
        ),
{
    let ghost k = scene.deep_view();
    let ghost mv = m.deep_view();
    let ghost start = model.deep_view();
    let mut i: usize = 0;
    while i < m.classes.len()
        invariant
            i <= m.classes@.len(),
            mv == m.deep_view(),
            with_classes(model.deep_view(), mv.classes, mv.path, i as int) == with_classes(
                start,
                mv.classes,
                mv.path,
                0,
            ),
        decreases m.classes@.len() - i,
    {
        let c = &m.classes[i];
        assert(c.deep_view() == mv.classes[i as int]);
        model.classes.insert(
            c.id.dup(),
            ClassInfo {
                id: c.id.dup(),
                name: c.name.dup(),
                module: m.path.dup(),
                methods: c.methods.dup(),
                loc: c.loc.dup(),
            },
        );
        i += 1;
    }
    let ghost start = model.deep_view();
    i = 0;
    while i < m.functions.len()
        invariant
            i <= m.functions@.len(),
            k == scene.deep_view(),
            mv == m.deep_view(),
            with_functions(model.deep_view(), k, mv.functions, i as int) == with_functions(
                start,
                k,
                mv.functions,
                0,
            ),
        decreases m.functions@.len() - i,
    {
        let f = &m.functions[i];
        assert(f.deep_view() == mv.functions[i as int]);
        let e = extract_entity(scene, f);
        list::extend(&mut model.routes, &e.routes);
        list::extend(&mut model.subscriptions, &e.subscriptions);
        model.entities.insert(e.id.dup(), e);
        i += 1;
    }
    let found = schema::extract(scene.ix, scene.cat, m);
    let ghost fv = found.deep_view();
    let ghost start = model.deep_view();
    i = 0;
    while i < found.len()
        invariant
            i <= found@.len(),
            fv == found.deep_view(),
            with_schemas(model.deep_view(), fv, i as int) == with_schemas(start, fv, 0),
        decreases found@.len() - i,
    {
        assert(fv[i as int] == found@[i as int].deep_view());
        model.schemas.insert(found[i].0.dup(), found[i].1.dup());
        i += 1;
    }
}

fn written_fields(model: &Model) -> (r: SortedSet<String>)
    ensures
        r.deep_view() == fields_written(model.deep_view().entities, 0, seq![]),
{
    let ghost ev = model.deep_view().entities;
    let mut out: SortedSet<String> = SortedSet::new();
    let mut i: usize = 0;
    while i < model.entities.len()
        invariant
            i <= ev.len(),
            ev == model.deep_view().entities,
            fields_written(ev, i as int, out.deep_view()) == fields_written(ev, 0, seq![]),
        decreases ev.len() - i,
    {
        let e = model.entities.value(i);
        let ghost wv = e.writes.deep_view();
        let ghost here = out.deep_view();
        let mut j: usize = 0;
        while j < e.writes.len()
            invariant
                j <= e.writes@.len(),
                wv == e.writes.deep_view(),
                fields_in(wv, j as int, out.deep_view()) == fields_in(wv, 0, here),
            decreases e.writes@.len() - j,
        {
            out.insert(e.writes[j].field.dup());
            j += 1;
        }
        i += 1;
    }
    out
}

fn add_domains(model: &mut Model, ix: &Index)
    ensures
        final(model).deep_view() == (ModelView {
            field_domains: domains_of(
                ix.deep_view().program,
                fields_written(old(model).deep_view().entities, 0, seq![]),
                0,
                old(model).deep_view().field_domains,
            ),
            ..old(model).deep_view()
        }),
{
    let ghost m = model.deep_view();
    let ghost p = ix.deep_view().program;
    let fields = written_fields(model);
    let ghost fv = fields.deep_view();
    let mut i: usize = 0;
    while i < fields.len()
        invariant
            i <= fv.len(),
            p == ix.deep_view().program,
            fv == fields.deep_view(),
            model.deep_view() == (ModelView { field_domains: model.deep_view().field_domains, ..m }),
            domains_of(p, fv, i as int, model.deep_view().field_domains) == domains_of(
                p,
                fv,
                0,
                m.field_domains,
            ),
        decreases fv.len() - i,
    {
        let f = fields.item(i);
        if let Some((record, field)) = text::split_once(f, ".") {
            if let Some(d) = ix.field_domain(&record, &field) {
                model.field_domains.insert(f.dup(), d);
            }
        }
        i += 1;
    }
}

fn module_deps(entities: &SortedMap<String, Entity>, start: SortedMap<(String, String), Vec<Loc>>) -> (r: SortedMap<(String, String), Vec<Loc>>)
    ensures
        r.deep_view() == deps_from(entities.deep_view(), 0, start.deep_view()),
{
    let ghost ev = entities.deep_view();
    let ghost first = start.deep_view();
    let mut out = start;
    let mut i: usize = 0;
    while i < entities.len()
        invariant
            i <= ev.len(),
            ev == entities.deep_view(),
            deps_from(ev, i as int, out.deep_view()) == deps_from(ev, 0, first),
        decreases ev.len() - i,
    {
        let e = entities.value(i);
        let ghost cv = e.calls.deep_view();
        let ghost here = out.deep_view();
        let mut j: usize = 0;
        while j < e.calls.len()
            invariant
                j <= e.calls@.len(),
                ev == entities.deep_view(),
                cv == e.calls.deep_view(),
                deps_of(ev, e.module@, cv, j as int, out.deep_view()) == deps_of(
                    ev,
                    e.module@,
                    cv,
                    0,
                    here,
                ),
            decreases e.calls@.len() - j,
        {
            let c = &e.calls[j];
            assert(c.deep_view() == cv[j as int]);
            if let Some(target) = entities.get(&c.target) {
                if !target.module.alike(&e.module) {
                    let k = (e.module.dup(), target.module.dup());
                    let mut sites = match out.get(&k) {
                        Some(sites) => sites.dup(),
                        None => list::empty(),
                    };
                    list::push(&mut sites, c.loc.dup());
                    out.insert(k, sites);
                }
            }
            j += 1;
        }
        i += 1;
    }
    out
}

/// Builds the behaviour model of one program version.
/// `config` is the text of `merak.toml`, if the repository has one.
pub fn analyze(program: &Program, config: Option<&str>) -> (r: Result<Model, String>)
    ensures
        outcome(r) == analyzed(program.deep_view(), config.deep_view()),
        r is Ok ==> keyed(r->Ok_0.deep_view()) && complete(r->Ok_0.deep_view()),
{
    let config = match config {
        Some(text) => match Config::parse(text) {
            Ok(c) => c,
            Err(e) => {
                return Err(text::cat2("merak.toml: ", &e));
            },
        },
        None => Config::default(),
    };
    Ok(model_under(program, &config))
}

/// Builds the behaviour model of one program version under a declared design.
pub fn model_under(program: &Program, config: &Config) -> (r: Model)
    ensures
        r.deep_view() == modelled(program.deep_view(), config.deep_view()),
        keyed(r.deep_view()),
        complete(r.deep_view()),
{
    let cat = Catalog::with_extensions(config.catalog.dup());
    let ix = Index::new(program);
    let envs = build_envs(&ix, &cat);
    let scene = Scene { ix: &ix, cat: &cat, envs: &envs };
    let ghost p = program.deep_view();
    let ghost k = scene.deep_view();
    let mut model = Model::default();
    let mut i: usize = 0;
    while i < program.modules.len()
        invariant
            i <= p.modules.len(),
            p == program.deep_view(),
            k == scene.deep_view(),
            with_modules(model.deep_view(), k, p.modules, i as int) == with_modules(
                empty_model(),
                k,
                p.modules,
                0,
            ),
        decreases p.modules.len() - i,
    {
        add_module(&mut model, &scene, program.modules.value(i));
        i += 1;
    }
    add_domains(&mut model, &ix);
    model.module_deps = module_deps(&model.entities, model.module_deps.dup());
    summary::compute(&mut model);
    model.invariants = mine(&model);
    design::apply(&mut model, config);
    proof {
        models_are_whole(p, config.deep_view());
    }
    model
}

} // verus!
