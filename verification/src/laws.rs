//! The laws the engine obeys, proved from the model that the executable
//! code is specified against: dialect fallback, override precedence,
//! memoization, deduplication with dependency order, declared-order
//! emission, and missing-binding failure.
use vstd::prelude::*;

use crate::assoc::lemma_str_find_at;
use crate::assoc::str_find;
use crate::config::Configuration;
use crate::config::get_conf_post;
use crate::data::Arch;
use crate::data::CodeArch;
use crate::data::DefView;
use crate::data::Entity;
use crate::data::Instance;
use crate::data::Schematic;
use crate::model::SynthErr;
use crate::model::arch_model;
use crate::model::children_defs;
use crate::model::dedup_extend;
use crate::model::dedup_push;
use crate::model::def_model;
use crate::model::first_supported;
use crate::model::generics_text;
use crate::model::inline_defs;
use crate::model::refs_text;
use crate::model::ports_text;
use crate::model::spice_def_model;
use crate::model::spice_ref_model;
use crate::simulator::Simulator;
use crate::simulator::dialect_model;
use crate::simulator::ngspice_dialect;
use crate::template::kv_map;

verus! {

/// Dialect fallback order: a table holding the backend's specific dialect
/// resolves to it; one holding only the generic family dialect resolves
/// to that; one holding neither yields nothing.
pub proof fn lemma_dialect_fallback(d: Seq<(String, CodeArch)>)
    ensures
        str_find(d, "ngspice"@) is Some ==> ngspice_dialect(d) == str_find(d, "ngspice"@),
        str_find(d, "ngspice"@) is None ==> ngspice_dialect(d) == str_find(d, "spice"@),
        str_find(d, "ngspice"@) is None && str_find(d, "spice"@) is None ==> ngspice_dialect(
            d,
        ) is None,
{
}

/// Architecture override precedence: an explicit per-configuration
/// architecture name wins and is looked up with no fallback; else a
/// design-wide override for the entity's name wins, also with no
/// fallback; else the first architecture the backend supports is taken.
pub proof fn lemma_arch_precedence(
    design: Seq<Entity>,
    ent: int,
    sim: Simulator,
    arch: Option<String>,
    all: Seq<(String, String)>,
)
    requires
        0 <= ent < design.len(),
    ensures
        arch matches Some(a) ==> arch_model(design, ent, sim, arch, all) == str_find(
            design[ent].archs@,
            a@,
        ),
        arch is None ==> match str_find(all, design[ent].name@) {
            Some(a) => arch_model(design, ent, sim, arch, all) == str_find(
                design[ent].archs@,
                a@,
            ),
            None => arch_model(design, ent, sim, arch, all) == first_supported(
                sim,
                design[ent].archs@,
            ),
        },
{
}

/// Memoization: requesting the same instance name's child configuration
/// twice from the same parent returns the same slot, and the second
/// request leaves the parent exactly as the first left it.
pub proof fn lemma_get_conf_memoized(
    pre: Configuration,
    name: Seq<char>,
    inst: Instance,
    mid: Configuration,
    i1: int,
    post: Configuration,
    i2: int,
)
    requires
        get_conf_post(pre, mid, name, inst, i1),
        get_conf_post(mid, post, name, inst, i2),
    ensures
        post == mid,
        i2 == i1,
{
    lemma_str_find_at(mid.for_inst@, name, i1);
    assert(str_find(mid.for_inst@, name) is Some);
    assert(post == mid);
    if i1 < i2 {
        assert(post.for_inst@[i1].0@ != name);
    } else if i2 < i1 {
        assert(mid.for_inst@[i2].0@ != name);
    }
}

/// Appending with deduplication never introduces a duplicate.
proof fn lemma_dedup_push_no_dup(s: Seq<DefView>, d: DefView)
    requires
        s.no_duplicates(),
    ensures
        dedup_push(s, d).no_duplicates(),
{
    if !s.contains(d) {
        let r = s.push(d);
        assert forall|i: int, j: int|
            0 <= i < r.len() && 0 <= j < r.len() && i != j implies r[i] != r[j] by {
            if i < s.len() && j < s.len() {
            } else if j == s.len() {
                assert(r[j] == d);
                assert(!s.contains(d));
                assert(r[i] == s[i]);
            } else {
                assert(r[i] == d);
                assert(r[j] == s[j]);
            }
        }
    }
}

/// Merging with deduplication never introduces a duplicate.
proof fn lemma_dedup_extend_no_dup(s: Seq<DefView>, t: Seq<DefView>)
    requires
        s.no_duplicates(),
    ensures
        dedup_extend(s, t).no_duplicates(),
    decreases t.len(),
{
    if t.len() > 0 {
        lemma_dedup_push_no_dup(s, t[0]);
        lemma_dedup_extend_no_dup(dedup_push(s, t[0]), t.drop_first());
    }
}

/// What is already merged stays, in place, in front of what follows.
proof fn lemma_dedup_extend_prefix(s: Seq<DefView>, t: Seq<DefView>)
    ensures
        s.is_prefix_of(dedup_extend(s, t)),
    decreases t.len(),
{
    if t.len() > 0 {
        lemma_dedup_extend_prefix(dedup_push(s, t[0]), t.drop_first());
        assert(s.is_prefix_of(dedup_push(s, t[0])));
        let m = dedup_push(s, t[0]);
        let r = dedup_extend(m, t.drop_first());
        assert forall|i: int| 0 <= i < s.len() implies s[i] == r[i] by {
            assert(s[i] == m[i]);
            assert(m[i] == r[i]);
        }
        assert(s =~= r.subrange(0, s.len() as int));
    }
}

/// The folded children's definitions keep the already-collected prefix.
proof fn lemma_children_defs_prefix(
    acc: Seq<DefView>,
    design: Seq<Entity>,
    sim: Simulator,
    cache: Seq<(String, Configuration)>,
    all: Seq<(String, String)>,
    insts: Seq<(String, Instance)>,
    f: nat,
)
    ensures
        children_defs(acc, design, sim, cache, all, insts, f) matches Ok(ds) ==> acc.is_prefix_of(
            ds,
        ),
    decreases insts.len(),
{
    if insts.len() > 0 {
        match crate::model::child_def(design, sim, cache, all, insts[0].0@, insts[0].1, f) {
            Err(_) => {},
            Ok(ds) => {
                let acc1 = dedup_extend(acc, ds);
                lemma_dedup_extend_prefix(acc, ds);
                lemma_children_defs_prefix(
                    acc1,
                    design,
                    sim,
                    cache,
                    all,
                    insts.drop_first(),
                    f,
                );
                match children_defs(acc1, design, sim, cache, all, insts.drop_first(), f) {
                    Err(_) => {},
                    Ok(r) => {
                        assert forall|i: int| 0 <= i < acc.len() implies acc[i] == r[i] by {
                            assert(acc[i] == acc1[i]);
                            assert(acc1[i] == r[i]);
                        }
                        assert(acc =~= r.subrange(0, acc.len() as int));
                    },
                }
            },
        }
    }
}

/// The folded children's definitions hold no duplicate.
proof fn lemma_children_defs_no_dup(
    acc: Seq<DefView>,
    design: Seq<Entity>,
    sim: Simulator,
    cache: Seq<(String, Configuration)>,
    all: Seq<(String, String)>,
    insts: Seq<(String, Instance)>,
    f: nat,
)
    requires
        acc.no_duplicates(),
    ensures
        children_defs(acc, design, sim, cache, all, insts, f) matches Ok(ds)
            ==> ds.no_duplicates(),
    decreases insts.len(),
{
    if insts.len() > 0 {
        match crate::model::child_def(design, sim, cache, all, insts[0].0@, insts[0].1, f) {
            Err(_) => {},
            Ok(ds) => {
                lemma_dedup_extend_no_dup(acc, ds);
                lemma_children_defs_no_dup(
                    dedup_extend(acc, ds),
                    design,
                    sim,
                    cache,
                    all,
                    insts.drop_first(),
                    f,
                );
            },
        }
    }
}

/// Deduplication and dependency order: a successful synthesis emits no
/// definition twice, and for a reusable block the definitions collected
/// from its instances stand, unchanged and in order, in front of the
/// block's own definition, which closes the sequence when it is new.
pub proof fn lemma_definition_dedup_ordered(
    design: Seq<Entity>,
    sim: Simulator,
    ent: int,
    cache: Seq<(String, Configuration)>,
    all: Seq<(String, String)>,
    sch: Schematic,
    f: nat,
)
    ensures
        spice_def_model(design, sim, ent, cache, all, sch, f) matches Ok(ds)
            ==> ds.no_duplicates(),
        (spice_def_model(design, sim, ent, cache, all, sch, f) is Ok && !sch.toplevel) ==> {
            let ds = spice_def_model(design, sim, ent, cache, all, sch, f)->Ok_0;
            &&& children_defs(Seq::empty(), design, sim, cache, all, sch.instances@, f) is Ok
            &&& children_defs(
                Seq::empty(),
                design,
                sim,
                cache,
                all,
                sch.instances@,
                f,
            )->Ok_0.is_prefix_of(ds)
            &&& {
                let sub = children_defs(
                    Seq::empty(),
                    design,
                    sim,
                    cache,
                    all,
                    sch.instances@,
                    f,
                )->Ok_0;
                sub.len() < ds.len() ==> ds.len() == sub.len() + 1
            }
        },
{
    assert(Seq::<DefView>::empty().no_duplicates());
    lemma_children_defs_no_dup(
        Seq::empty(),
        design,
        sim,
        cache,
        all,
        sch.instances@,
        f,
    );
    lemma_children_defs_prefix(Seq::empty(), design, sim, cache, all, sch.instances@, f);
    match children_defs(Seq::empty(), design, sim, cache, all, sch.instances@, f) {
        Err(_) => {},
        Ok(sub) => {
            match spice_def_model(design, sim, ent, cache, all, sch, f) {
                Err(_) => {},
                Ok(ds) => {
                    if sch.toplevel {
                        assert(ds.no_duplicates());
                    } else {
                        let own = ds[ds.len() - 1];
                        lemma_dedup_push_no_dup(sub, own);
                        assert(sub.is_prefix_of(dedup_push(sub, own))) by {
                            if !sub.contains(own) {
                                assert(sub =~= sub.push(own).subrange(0, sub.len() as int));
                            } else {
                                assert(sub =~= sub.subrange(0, sub.len() as int));
                            }
                        };
                    }
                },
            }
        },
    }
}

/// The definition of any configuration, at any fuel, holds no duplicate.
pub proof fn lemma_definition_no_duplicates(
    design: Seq<Entity>,
    sim: Simulator,
    ent: int,
    arch: Option<String>,
    cache: Seq<(String, Configuration)>,
    all: Seq<(String, String)>,
    fuel: nat,
)
    ensures
        def_model(design, sim, ent, arch, cache, all, fuel) matches Ok(ds)
            ==> ds.no_duplicates(),
{
    match arch_model(design, ent, sim, arch, all) {
        None => {},
        Some(a) => match a {
            Arch::Code(cda) => {
                assert(Seq::<DefView>::empty().no_duplicates());
                match dialect_model(sim, cda.dialects@) {
                    None => {},
                    Some(ca) => {
                        lemma_dedup_push_no_dup(Seq::empty(), ca.definition@);
                    },
                }
            },
            Arch::Schematic(sch) => {
                if fuel > 0 {
                    lemma_definition_dedup_ordered(
                        design,
                        sim,
                        ent,
                        cache,
                        all,
                        sch,
                        (fuel - 1) as nat,
                    );
                }
            },
        },
    }
}

/// A toplevel schematic produces a single self-contained emitted
/// definition rather than a reusable block: on success the synthesized
/// sequence holds exactly one definition, it is text, and that text
/// closes with the program terminator line.
pub proof fn lemma_toplevel_single_definition(
    design: Seq<Entity>,
    sim: Simulator,
    ent: int,
    cache: Seq<(String, Configuration)>,
    all: Seq<(String, String)>,
    sch: Schematic,
    f: nat,
)
    requires
        sch.toplevel,
        spice_def_model(design, sim, ent, cache, all, sch, f) is Ok,
    ensures
        ({
            let ds = spice_def_model(design, sim, ent, cache, all, sch, f)->Ok_0;
            &&& ds.len() == 1
            &&& exists|body: Seq<char>| ds[0] == DefView::Code(body + ".end\n"@)
        }),
{
    match children_defs(Seq::empty(), design, sim, cache, all, sch.instances@, f) {
        Err(_) => {},
        Ok(sub) => {
            match refs_text(
                inline_defs("* "@ + design[ent].name@ + "\n"@, sub),
                design,
                sim,
                cache,
                all,
                sch.instances@,
            ) {
                Err(_) => {},
                Ok(t) => {
                    let d = DefView::Code(t + ".end\n"@);
                    assert(!Seq::<DefView>::empty().contains(d));
                    assert(dedup_push(Seq::empty(), d) =~= seq![d]);
                    assert(spice_def_model(design, sim, ent, cache, all, sch, f)->Ok_0[0] == d);
                },
            }
        },
    }
}

/// The value bound to `k`, read as text.
pub open spec fn find_view(m: Seq<(String, String)>, k: Seq<char>) -> Option<Seq<char>> {
    match str_find(m, k) {
        Some(v) => Some(v@),
        None => None,
    }
}

/// The two association lists bind every key to the same text: they are
/// the same mapping, whatever order their entries stand in.
pub open spec fn same_bindings(m1: Seq<(String, String)>, m2: Seq<(String, String)>) -> bool {
    forall|k: Seq<char>| #[trigger] find_view(m1, k) == find_view(m2, k)
}

proof fn lemma_ports_text_order_independent(
    acc: Seq<char>,
    ports: Seq<String>,
    pm1: Seq<(String, String)>,
    pm2: Seq<(String, String)>,
    name: Seq<char>,
)
    requires
        same_bindings(pm1, pm2),
    ensures
        ports_text(acc, ports, pm1, name) == ports_text(acc, ports, pm2, name),
    decreases ports.len(),
{
    if ports.len() > 0 {
        assert(find_view(pm1, ports[0]@) == find_view(pm2, ports[0]@));
        match str_find(pm1, ports[0]@) {
            None => {},
            Some(v1) => {
                let v2 = str_find(pm2, ports[0]@)->0;
                assert(v1@ == v2@);
                lemma_ports_text_order_independent(
                    acc + " "@ + v1@,
                    ports.drop_first(),
                    pm1,
                    pm2,
                    name,
                );
            },
        }
    }
}

proof fn lemma_generics_text_order_independent(
    acc: Seq<char>,
    gens: Seq<String>,
    gm1: Seq<(String, String)>,
    gm2: Seq<(String, String)>,
)
    requires
        same_bindings(gm1, gm2),
    ensures
        generics_text(acc, gens, gm1) == generics_text(acc, gens, gm2),
    decreases gens.len(),
{
    if gens.len() > 0 {
        assert(find_view(gm1, gens[0]@) == find_view(gm2, gens[0]@));
        match str_find(gm1, gens[0]@) {
            None => {},
            Some(v1) => {
                let v2 = str_find(gm2, gens[0]@)->0;
                assert(v1@ == v2@);
                lemma_generics_text_order_independent(
                    acc + " "@ + gens[0]@ + "="@ + v1@,
                    gens.drop_first(),
                    gm1,
                    gm2,
                );
            },
        }
    }
}

/// Declared-order emission: a synthesized reference line depends on the
/// port and generic maps only as mappings, never on the order their
/// entries stand in; the column order is the entity's declared order.
pub proof fn lemma_reference_declared_order(
    e: Entity,
    name: Seq<char>,
    gm1: Seq<(String, String)>,
    gm2: Seq<(String, String)>,
    pm1: Seq<(String, String)>,
    pm2: Seq<(String, String)>,
)
    requires
        same_bindings(gm1, gm2),
        same_bindings(pm1, pm2),
    ensures
        spice_ref_model(e, name, gm1, pm1) == spice_ref_model(e, name, gm2, pm2),
{
    lemma_ports_text_order_independent("x"@ + name, e.port@, pm1, pm2, name);
    match ports_text("x"@ + name, e.port@, pm1, name) {
        Err(_) => {},
        Ok(t) => {
            lemma_generics_text_order_independent(t + " "@ + e.name@, e.generic@, gm1, gm2);
        },
    }
}

/// No key occurs twice in the association list.
pub open spec fn distinct_keys(m: Seq<(String, String)>) -> bool {
    forall|i: int, j: int| 0 <= i < j < m.len() ==> m[i].0@ != m[j].0@
}

/// For a duplicate-free association list, the finite map handed to the
/// templating engine is exactly the lookup function: same domain, same
/// values.
proof fn lemma_kv_map_is_find(m: Seq<(String, String)>)
    requires
        distinct_keys(m),
    ensures
        forall|k: Seq<char>| kv_map(m).contains_key(k) <==> (#[trigger] find_view(m, k)) is Some,
        forall|k: Seq<char>|
            (#[trigger] find_view(m, k)) matches Some(v) ==> kv_map(m).contains_key(k) && kv_map(
                m,
            )[k] == v,
    decreases m.len(),
{
    if m.len() > 0 {
        let m1 = m.drop_last();
        let lk = m.last().0@;
        let lv = m.last().1@;
        assert forall|i: int, j: int| 0 <= i < j < m1.len() implies m1[i].0@ != m1[j].0@ by {
            assert(m1[i] == m[i]);
            assert(m1[j] == m[j]);
        }
        lemma_kv_map_is_find(m1);
        assert forall|l: int| 0 <= l < m.len() - 1 implies (#[trigger] m[l]).0@ != lk by {}
        lemma_str_find_at(m, lk, m.len() - 1);
        assert(find_view(m, lk) == Some(lv));
        assert forall|k: Seq<char>| k != lk implies #[trigger] find_view(m, k) == find_view(
            m1,
            k,
        ) by {
            match str_find(m1, k) {
                Some(_) => {
                    crate::assoc::lemma_str_find_first(m1, k);
                    let j = choose|j: int|
                        0 <= j < m1.len() && (#[trigger] m1[j].0@) == k && str_find(m1, k) == Some(
                            m1[j].1,
                        ) && (forall|l: int| 0 <= l < j ==> m1[l].0@ != k);
                    assert forall|l: int| 0 <= l < j implies (#[trigger] m[l]).0@ != k by {
                        assert(m[l] == m1[l]);
                    }
                    assert(m[j] == m1[j]);
                    lemma_str_find_at(m, k, j);
                },
                None => {
                    crate::assoc::lemma_str_find_none(m1, k);
                    crate::assoc::lemma_str_find_none(m, k);
                    assert forall|l: int| 0 <= l < m.len() implies (#[trigger] m[l]).0@ != k by {
                        if l < m.len() - 1 {
                            assert(m[l] == m1[l]);
                        }
                    }
                },
            }
        }
    }
}

/// Declared-order emission for template-backed references: the binding
/// map handed to the templating engine depends on the port and generic
/// maps only as mappings, so permuting duplicate-free map entries cannot
/// change the rendered line.
pub proof fn lemma_template_bindings_order_independent(
    m1: Seq<(String, String)>,
    m2: Seq<(String, String)>,
)
    requires
        distinct_keys(m1),
        distinct_keys(m2),
        same_bindings(m1, m2),
    ensures
        kv_map(m1) == kv_map(m2),
{
    lemma_kv_map_is_find(m1);
    lemma_kv_map_is_find(m2);
    assert forall|k: Seq<char>| #[trigger]
        kv_map(m1).contains_key(k) implies kv_map(m2).contains_key(k) && kv_map(m1)[k] == kv_map(
        m2,
    )[k] by {
        assert(find_view(m1, k) == find_view(m2, k));
    }
    assert forall|k: Seq<char>| #[trigger] kv_map(m2).contains_key(k) implies kv_map(
        m1,
    ).contains_key(k) by {
        assert(find_view(m1, k) == find_view(m2, k));
    }
    assert(kv_map(m1) =~= kv_map(m2));
}

proof fn lemma_ports_text_missing(
    acc: Seq<char>,
    ports: Seq<String>,
    pm: Seq<(String, String)>,
    name: Seq<char>,
    i: int,
)
    requires
        0 <= i < ports.len(),
        str_find(pm, ports[i]@) is None,
        forall|l: int| 0 <= l < i ==> str_find(pm, (#[trigger] ports[l])@) is Some,
    ensures
        ports_text(acc, ports, pm, name) == Err::<Seq<char>, SynthErr>(
            SynthErr::Compile("no "@ + ports[i]@ + " in "@ + name),
        ),
    decreases i,
{
    if i > 0 {
        let v = str_find(pm, ports[0]@)->0;
        assert forall|l: int| 0 <= l < i - 1 implies str_find(
            pm,
            (#[trigger] ports.drop_first()[l])@,
        ) is Some by {
            assert(ports.drop_first()[l] == ports[l + 1]);
        }
        assert(ports.drop_first()[i - 1] == ports[i]);
        lemma_ports_text_missing(acc + " "@ + v@, ports.drop_first(), pm, name, i - 1);
    }
}

proof fn lemma_ports_text_all_bound(
    acc: Seq<char>,
    ports: Seq<String>,
    pm: Seq<(String, String)>,
    name: Seq<char>,
)
    requires
        forall|l: int| 0 <= l < ports.len() ==> str_find(pm, (#[trigger] ports[l])@) is Some,
    ensures
        ports_text(acc, ports, pm, name) is Ok,
    decreases ports.len(),
{
    if ports.len() > 0 {
        let v = str_find(pm, ports[0]@)->0;
        assert forall|l: int| 0 <= l < ports.drop_first().len() implies str_find(
            pm,
            (#[trigger] ports.drop_first()[l])@,
        ) is Some by {
            assert(ports.drop_first()[l] == ports[l + 1]);
        }
        lemma_ports_text_all_bound(acc + " "@ + v@, ports.drop_first(), pm, name);
    }
}

proof fn lemma_generics_text_missing(
    acc: Seq<char>,
    gens: Seq<String>,
    gm: Seq<(String, String)>,
    i: int,
)
    requires
        0 <= i < gens.len(),
        str_find(gm, gens[i]@) is None,
        forall|l: int| 0 <= l < i ==> str_find(gm, (#[trigger] gens[l])@) is Some,
    ensures
        generics_text(acc, gens, gm) == Err::<Seq<char>, SynthErr>(SynthErr::Compile(gens[i]@)),
    decreases i,
{
    if i > 0 {
        let v = str_find(gm, gens[0]@)->0;
        assert forall|l: int| 0 <= l < i - 1 implies str_find(
            gm,
            (#[trigger] gens.drop_first()[l])@,
        ) is Some by {
            assert(gens.drop_first()[l] == gens[l + 1]);
        }
        assert(gens.drop_first()[i - 1] == gens[i]);
        lemma_generics_text_missing(acc + " "@ + gens[0]@ + "="@ + v@, gens.drop_first(), gm, i - 1);
    }
}

proof fn lemma_generics_text_all_bound(acc: Seq<char>, gens: Seq<String>, gm: Seq<(String, String)>)
    requires
        forall|l: int| 0 <= l < gens.len() ==> str_find(gm, (#[trigger] gens[l])@) is Some,
    ensures
        generics_text(acc, gens, gm) is Ok,
    decreases gens.len(),
{
    if gens.len() > 0 {
        let v = str_find(gm, gens[0]@)->0;
        assert forall|l: int| 0 <= l < gens.drop_first().len() implies str_find(
            gm,
            (#[trigger] gens.drop_first()[l])@,
        ) is Some by {
            assert(gens.drop_first()[l] == gens[l + 1]);
        }
        lemma_generics_text_all_bound(acc + " "@ + gens[0]@ + "="@ + v@, gens.drop_first(), gm);
    }
}

/// Missing-binding failure: when the first unbound port, in declared
/// order, is port `i`, the synthesized reference fails with a structural
/// error naming that port and the instance.
pub proof fn lemma_missing_port_fails(
    e: Entity,
    name: Seq<char>,
    gm: Seq<(String, String)>,
    pm: Seq<(String, String)>,
    i: int,
)
    requires
        0 <= i < e.port@.len(),
        str_find(pm, e.port@[i]@) is None,
        forall|l: int| 0 <= l < i ==> str_find(pm, (#[trigger] e.port@[l])@) is Some,
    ensures
        spice_ref_model(e, name, gm, pm) == Err::<Seq<char>, SynthErr>(
            SynthErr::Compile("no "@ + e.port@[i]@ + " in "@ + name),
        ),
{
    lemma_ports_text_missing("x"@ + name, e.port@, pm, name, i);
}

/// Missing-binding failure: with every port bound, when the first unbound
/// generic, in declared order, is generic `i`, the synthesized reference
/// fails with a structural error naming that generic.
pub proof fn lemma_missing_generic_fails(
    e: Entity,
    name: Seq<char>,
    gm: Seq<(String, String)>,
    pm: Seq<(String, String)>,
    i: int,
)
    requires
        forall|l: int| 0 <= l < e.port@.len() ==> str_find(pm, (#[trigger] e.port@[l])@) is Some,
        0 <= i < e.generic@.len(),
        str_find(gm, e.generic@[i]@) is None,
        forall|l: int| 0 <= l < i ==> str_find(gm, (#[trigger] e.generic@[l])@) is Some,
    ensures
        spice_ref_model(e, name, gm, pm) == Err::<Seq<char>, SynthErr>(SynthErr::Compile(e.generic@[i]@)),
{
    lemma_ports_text_all_bound("x"@ + name, e.port@, pm, name);
    let t = ports_text("x"@ + name, e.port@, pm, name)->Ok_0;
    lemma_generics_text_missing(t + " "@ + e.name@, e.generic@, gm, i);
}

/// With every declared port and generic bound, the synthesized reference
/// line is owed: it never fails.
pub proof fn lemma_reference_succeeds(
    e: Entity,
    name: Seq<char>,
    gm: Seq<(String, String)>,
    pm: Seq<(String, String)>,
)
    requires
        forall|l: int| 0 <= l < e.port@.len() ==> str_find(pm, (#[trigger] e.port@[l])@) is Some,
        forall|l: int|
            0 <= l < e.generic@.len() ==> str_find(gm, (#[trigger] e.generic@[l])@) is Some,
    ensures
        spice_ref_model(e, name, gm, pm) is Ok,
{
    lemma_ports_text_all_bound("x"@ + name, e.port@, pm, name);
    let t = ports_text("x"@ + name, e.port@, pm, name)->Ok_0;
    lemma_generics_text_all_bound(t + " "@ + e.name@, e.generic@, gm);
}

} // verus!
