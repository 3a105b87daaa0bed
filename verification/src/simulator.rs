//! The backend capability: a closed set of simulator families. Each
//! family selects a code dialect from a dialect table by its own fixed
//! preference order, and synthesizes schematics that have no matching
//! dialect.
use vstd::prelude::*;

use crate::assoc::lemma_str_find_at;
use crate::assoc::lemma_str_find_some_same_names;
use crate::assoc::map_get;
use crate::assoc::str_find;
use crate::config::Configuration;
use crate::config::cache_grown;
use crate::config::core_eq;
use crate::config::fresh_core;
use crate::config::get_conf_post;
use crate::config::lemma_cache_grown_lookup;
use crate::config::name_in;
use crate::data::CodeArch;
use crate::data::CodeDialectArch;
use crate::data::CodeError;
use crate::data::DefView;
use crate::data::Definition;
use crate::data::Design;
use crate::data::Instance;
use crate::data::Schematic;
use crate::data::defs_contains;
use crate::data::defs_views;
use crate::data::sch_wf;
use crate::model::child_conf;
use crate::model::child_def;
use crate::model::children_defs;
use crate::model::dedup_extend;
use crate::model::dedup_push;
use crate::model::def_model;
use crate::model::defs_res_matches;
use crate::model::err_matches;
use crate::model::generics_text;
use crate::model::inline_defs;
use crate::model::ports_decl;
use crate::model::ports_text;
use crate::model::ref_model;
use crate::model::refs_text;
use crate::model::spice_def_model;
use crate::model::spice_ref_model;
use crate::model::str_res_matches;
use vstd::string::StringExecFns;

verus! {

/// The SPICE-family backend: prefers its own `ngspice` dialect and falls
/// back to the generic `spice` dialect.
#[derive(Clone, Copy)]
pub struct Ngspice;

/// A target simulator backend; the set of families is fixed at design
/// time, so it is a sum over them.
#[derive(Clone, Copy)]
pub enum Simulator {
    Ngspice(Ngspice),
}

/// The dialect the SPICE-family backend selects from a table: the
/// `ngspice` entry if present, else the `spice` entry.
pub open spec fn ngspice_dialect(d: Seq<(String, CodeArch)>) -> Option<CodeArch> {
    match str_find(d, "ngspice"@) {
        Some(c) => Some(c),
        None => str_find(d, "spice"@),
    }
}

/// The dialect a backend selects from a table, by family.
pub open spec fn dialect_model(sim: Simulator, d: Seq<(String, CodeArch)>) -> Option<CodeArch> {
    match sim {
        Simulator::Ngspice(_) => ngspice_dialect(d),
    }
}

impl Ngspice {
    /// The best-matching code implementation for this backend: `ngspice`
    /// first, then the generic `spice` fallback.
    pub fn get_dialect<'a>(&self, arch: &'a CodeDialectArch) -> (r: Option<&'a CodeArch>)
        ensures
            match r {
                Some(c) => ngspice_dialect(arch.dialects@) == Some(*c),
                None => ngspice_dialect(arch.dialects@) is None,
            },
    {
        let specific = "ngspice".to_owned();
        match map_get(&arch.dialects, &specific) {
            Some(c) => Some(c),
            None => {
                let generic = "spice".to_owned();
                map_get(&arch.dialects, &generic)
            },
        }
    }
}

/// Builds the reference line for one instance of the configured entity:
/// the prefix `x`, the instance name, then for every port in the entity's
/// declared order the bound net, then the entity name, then every generic
/// in declared order as a `name=value` pair. A missing port or generic
/// binding is a structural error.
fn spice_reference(
    design: &Design,
    conf: &Configuration,
    name: &str,
    genericmap: &Vec<(String, String)>,
    portmap: &Vec<(String, String)>,
) -> (r: Result<String, CodeError>)
    requires
        conf.ent < design.entities@.len(),
    ensures
        str_res_matches(
            r,
            spice_ref_model(design.entities@[conf.ent as int], name@, genericmap@, portmap@),
        ),
{
    let e = &design.entities[conf.ent];
    let mut res = "x".to_owned();
    res.append(name);
    let mut i: usize = 0;
    proof {
        assert(e.port@.skip(0) =~= e.port@);
    }
    while i < e.port.len()
        invariant
            0 <= i <= e.port@.len(),
            ports_text("x"@ + name@, e.port@, portmap@, name@) == ports_text(
                res@,
                e.port@.skip(i as int),
                portmap@,
                name@,
            ),
        decreases e.port@.len() - i,
    {
        proof {
            assert(e.port@.skip(i as int)[0] == e.port@[i as int]);
        }
        match map_get(portmap, &e.port[i]) {
            None => {
                let mut msg = "no ".to_owned();
                msg.append(e.port[i].as_str());
                msg.append(" in ");
                msg.append(name);
                return Err(CodeError::CompileError(msg));
            },
            Some(net) => {
                res.append(" ");
                res.append(net.as_str());
            },
        }
        proof {
            assert(e.port@.skip(i as int).drop_first() =~= e.port@.skip(i + 1));
        }
        i += 1;
    }
    let ghost ports_done = res@;
    res.append(" ");
    res.append(e.name.as_str());
    let mut i: usize = 0;
    proof {
        assert(e.generic@.skip(0) =~= e.generic@);
    }
    while i < e.generic.len()
        invariant
            0 <= i <= e.generic@.len(),
            generics_text(ports_done + " "@ + e.name@, e.generic@, genericmap@) == generics_text(
                res@,
                e.generic@.skip(i as int),
                genericmap@,
            ),
        decreases e.generic@.len() - i,
    {
        proof {
            assert(e.generic@.skip(i as int)[0] == e.generic@[i as int]);
        }
        match map_get(genericmap, &e.generic[i]) {
            None => {
                return Err(CodeError::CompileError(e.generic[i].clone()));
            },
            Some(v) => {
                res.append(" ");
                res.append(e.generic[i].as_str());
                res.append("=");
                res.append(v.as_str());
            },
        }
        proof {
            assert(e.generic@.skip(i as int).drop_first() =~= e.generic@.skip(i + 1));
        }
        i += 1;
    }
    Ok(res)
}

/// Appends each definition of `more` whose value is not yet present in
/// `acc`, keeping insertion order: the first occurrence wins.
fn merge_defs(acc: &mut Vec<Definition>, more: &Vec<Definition>)
    ensures
        defs_views(final(acc)@) == dedup_extend(defs_views(old(acc)@), defs_views(more@)),
{
    let mut i: usize = 0;
    proof {
        assert(defs_views(more@).skip(0) =~= defs_views(more@));
    }
    while i < more.len()
        invariant
            0 <= i <= more@.len(),
            defs_views(more@).len() == more@.len(),
            dedup_extend(defs_views(old(acc)@), defs_views(more@)) == dedup_extend(
                defs_views(acc@),
                defs_views(more@).skip(i as int),
            ),
        decreases more@.len() - i,
    {
        proof {
            assert(defs_views(more@).skip(i as int)[0] == defs_views(more@)[i as int]);
            assert(defs_views(more@)[i as int] == more@[i as int]@);
        }
        let ghost before = acc@;
        let d = &more[i];
        if !defs_contains(acc, d) {
            acc.push(d.clone());
            proof {
                assert(defs_views(acc@) =~= defs_views(before).push(more@[i as int]@));
            }
        }
        proof {
            assert(defs_views(more@).skip(i as int).drop_first() =~= defs_views(more@).skip(
                i + 1,
            ));
        }
        i += 1;
    }
    proof {
        assert(defs_views(more@).skip(more@.len() as int) =~= Seq::<DefView>::empty());
    }
}

/// First traversal pass of a schematic: visits every instance in order,
/// resolves its child configuration (memoizing it), collects the child's
/// definition sequence, and merges everything with deduplication.
fn collect_child_defs(
    design: &Design,
    conf: &mut Configuration,
    sch: &Schematic,
    fuel: usize,
) -> (r: Result<Vec<Definition>, CodeError>)
    requires
        design.wf(),
        sch_wf(*sch),
    ensures
        final(conf).sim == old(conf).sim,
        final(conf).ent == old(conf).ent,
        final(conf).arch == old(conf).arch,
        final(conf).all == old(conf).all,
        defs_res_matches(
            r,
            children_defs(
                Seq::empty(),
                design.entities@,
                old(conf).sim,
                old(conf).for_inst@,
                old(conf).all@,
                sch.instances@,
                fuel as nat,
            ),
        ),
        r is Ok ==> cache_grown(
            old(conf).for_inst@,
            final(conf).for_inst@,
            sch.instances@,
            old(conf).sim,
            old(conf).all@,
        ) && (forall|k: int|
            0 <= k < sch.instances@.len() ==> str_find(
                final(conf).for_inst@,
                (#[trigger] sch.instances@[k]).0@,
            ) is Some),
    decreases fuel, 2int,
{
    let ghost c0 = old(conf).for_inst@;
    let ghost sim0 = old(conf).sim;
    let ghost all0 = old(conf).all@;
    let ghost insts = sch.instances@;
    let mut defs: Vec<Definition> = Vec::new();
    let mut i: usize = 0;
    proof {
        assert(insts.skip(0) =~= insts);
        assert(defs_views(defs@) =~= Seq::<DefView>::empty());
    }
    while i < sch.instances.len()
        invariant
            0 <= i <= insts.len(),
            conf.sim == old(conf).sim,
            conf.ent == old(conf).ent,
            conf.arch == old(conf).arch,
            conf.all == old(conf).all,
            cache_grown(c0, conf.for_inst@, insts.take(i as int), sim0, all0),
            forall|k: int|
                0 <= k < i ==> str_find(conf.for_inst@, (#[trigger] insts[k]).0@) is Some,
            children_defs(Seq::empty(), design.entities@, sim0, c0, all0, insts, fuel as nat)
                == children_defs(
                defs_views(defs@),
                design.entities@,
                sim0,
                c0,
                all0,
                insts.skip(i as int),
                fuel as nat,
            ),
        decreases insts.len() - i,
    {
        let ghost n = insts[i as int].0@;
        let ghost inst_i = insts[i as int].1;
        proof {
            assert(insts.skip(i as int)[0] == insts[i as int]);
            // the current instance name has not been visited yet
            assert(!name_in(insts.take(i as int), n)) by {
                if name_in(insts.take(i as int), n) {
                    let k = choose|k: int|
                        0 <= k < insts.take(i as int).len() && (#[trigger] insts.take(
                            i as int,
                        )[k]).0@ == n;
                    assert(insts.take(i as int)[k] == insts[k]);
                    assert(false);
                }
            };
            lemma_cache_grown_lookup(c0, conf.for_inst@, insts.take(i as int), sim0, all0, n);
        }
        let ghost pre_conf = *conf;
        let ghost pre_cache = conf.for_inst@;
        let ghost defs_before = defs@;
        let pair = &sch.instances[i];
        let idx = conf.get_conf(&pair.0, &pair.1);
        let ghost post_cache = conf.for_inst@;
        proof {
            assert(get_conf_post(pre_conf, *conf, n, inst_i, idx as int));
            lemma_str_find_at(post_cache, n, idx as int);
        }
        let removed = conf.for_inst.remove(idx);
        let nm = removed.0;
        let mut cc = removed.1;
        let ghost cc_old = cc;
        proof {
            assert(cc_old == post_cache[idx as int].1);
            // the child taken from the slot is the child the model names
            assert(child_def(design.entities@, sim0, c0, all0, n, inst_i, fuel as nat)
                == def_model(
                design.entities@,
                cc_old.sim,
                cc_old.ent as int,
                cc_old.arch,
                cc_old.for_inst@,
                cc_old.all@,
                fuel as nat,
            )) by {
                if str_find(pre_cache, n) is Some {
                    assert(post_cache == pre_cache);
                    assert(str_find(pre_cache, n) == Some(cc_old));
                    assert(str_find(c0, n) == Some(cc_old));
                } else {
                    assert(str_find(c0, n) is None);
                    assert(cc_old.for_inst@ =~= Seq::<(String, Configuration)>::empty());
                }
            };
        }
        let rr = cc.definition_fuel(design, fuel);
        let ghost cc_post = cc;
        conf.for_inst.insert(idx, (nm, cc));
        proof {
            assert(nm == post_cache[idx as int].0);
            assert(conf.for_inst@ =~= post_cache.update(idx as int, (nm, cc_post)));
            assert(core_eq(cc_post, cc_old));
        }
        match rr {
            Err(e) => {
                proof {
                    assert(children_defs(
                        defs_views(defs@),
                        design.entities@,
                        sim0,
                        c0,
                        all0,
                        insts.skip(i as int),
                        fuel as nat,
                    ) matches Err(em) && err_matches(e, em));
                }
                return Err(e);
            },
            Ok(ds) => {
                merge_defs(&mut defs, &ds);
                proof {
                    assert(insts.skip(i as int).drop_first() =~= insts.skip(i + 1));
                    // the partial fold advances by this instance's definitions
                    let dv = child_def(
                        design.entities@,
                        sim0,
                        c0,
                        all0,
                        n,
                        inst_i,
                        fuel as nat,
                    )->Ok_0;
                    assert(defs_views(ds@) == dv);
                    assert(children_defs(
                        defs_views(defs_before),
                        design.entities@,
                        sim0,
                        c0,
                        all0,
                        insts.skip(i as int),
                        fuel as nat,
                    ) == children_defs(
                        dedup_extend(defs_views(defs_before), dv),
                        design.entities@,
                        sim0,
                        c0,
                        all0,
                        insts.skip(i + 1),
                        fuel as nat,
                    ));
                    // the evolved cache still satisfies the traversal invariant
                    let fc = conf.for_inst@;
                    let done1 = insts.take(i + 1);
                    assert(done1[i as int] == insts[i as int]);
                    assert(name_in(done1, n));
                    assert forall|m: Seq<char>| name_in(insts.take(i as int), m) implies name_in(
                        done1,
                        m,
                    ) by {
                        let k = choose|k: int|
                            0 <= k < insts.take(i as int).len() && (#[trigger] insts.take(
                                i as int,
                            )[k]).0@ == m;
                        assert(done1[k] == insts.take(i as int)[k]);
                    }
                    if str_find(pre_cache, n) is Some {
                        assert(post_cache == pre_cache);
                        assert(idx < c0.len()) by {
                            if idx >= c0.len() {
                                assert(pre_cache[idx as int].0@ == n);
                                assert(str_find(c0, pre_cache[idx as int].0@) is None);
                                assert(name_in(insts.take(i as int), pre_cache[idx as int].0@));
                            }
                        };
                    } else {
                        assert(post_cache == pre_cache.push(post_cache[idx as int]));
                        assert(idx == pre_cache.len());
                    }
                    assert(cache_grown(c0, fc, done1, sim0, all0)) by {
                        assert forall|j: int| 0 <= j < c0.len() implies (#[trigger] fc[j]).0@
                            == c0[j].0@ && core_eq(fc[j].1, c0[j].1) by {
                            if j != idx {
                                assert(fc[j] == post_cache[j]);
                                assert(post_cache[j] == pre_cache[j]);
                            }
                        }
                        assert forall|j: int|
                            0 <= j < c0.len() && !name_in(done1, (#[trigger] c0[j]).0@) implies fc[j]
                            == c0[j] by {
                            assert(c0[j].0@ != n);
                            assert(j != idx);
                            assert(fc[j] == post_cache[j]);
                            assert(post_cache[j] == pre_cache[j]);
                        }
                        assert forall|j: int| c0.len() <= j < fc.len() implies str_find(
                            c0,
                            (#[trigger] fc[j]).0@,
                        ) is None && (exists|k: int|
                            0 <= k < done1.len() && (#[trigger] done1[k]).0@ == fc[j].0@
                                && fresh_core(fc[j].1, sim0, done1[k].1, all0)) by {
                            if j == idx {
                                assert(str_find(c0, n) is None);
                                assert(fc[j].0@ == n);
                                assert(done1[i as int].0@ == n);
                                assert(fresh_core(fc[j].1, sim0, done1[i as int].1, all0));
                            } else {
                                assert(fc[j] == post_cache[j]);
                                assert(post_cache[j] == pre_cache[j]);
                                let k = choose|k: int|
                                    0 <= k < insts.take(i as int).len() && (#[trigger] insts.take(
                                        i as int,
                                    )[k]).0@ == pre_cache[j].0@ && fresh_core(
                                        pre_cache[j].1,
                                        sim0,
                                        insts.take(i as int)[k].1,
                                        all0,
                                    );
                                assert(done1[k] == insts.take(i as int)[k]);
                            }
                        }
                    };
                    // every visited name is now cached
                    assert forall|k: int| 0 <= k < i + 1 implies str_find(
                        conf.for_inst@,
                        (#[trigger] insts[k]).0@,
                    ) is Some by {
                        assert(conf.for_inst@.len() >= pre_cache.len());
                        assert forall|l: int| 0 <= l < pre_cache.len() implies pre_cache[l].0@
                            == (#[trigger] conf.for_inst@[l]).0@ by {
                            if l != idx {
                                assert(conf.for_inst@[l] == post_cache[l]);
                                assert(post_cache[l] == pre_cache[l]);
                            } else {
                                assert(pre_cache[idx as int].0@ == n);
                            }
                        }
                        if k < i {
                            lemma_str_find_some_same_names(
                                pre_cache,
                                conf.for_inst@,
                                insts[k].0@,
                            );
                        } else {
                            lemma_str_find_at(conf.for_inst@, n, idx as int);
                        }
                    }
                }
                i += 1;
            },
        }
    }
    proof {
        assert(insts.skip(insts.len() as int) =~= Seq::<(String, Instance)>::empty());
        assert(insts.take(insts.len() as int) =~= insts);
    }
    Ok(defs)
}

/// Second traversal pass of a schematic: appends one reference line per
/// instance, each followed by a newline, to `res`. Every instance name is
/// already cached, so the configuration is left untouched; the reference
/// of each instance is the one its child configuration renders.
fn build_refs(
    design: &Design,
    conf: &mut Configuration,
    sch: &Schematic,
    res: &mut String,
    c0: Ghost<Seq<(String, Configuration)>>,
) -> (r: Result<(), CodeError>)
    requires
        design.wf(),
        sch_wf(*sch),
        cache_grown(c0@, old(conf).for_inst@, sch.instances@, old(conf).sim, old(conf).all@),
        forall|k: int|
            0 <= k < sch.instances@.len() ==> str_find(
                old(conf).for_inst@,
                (#[trigger] sch.instances@[k]).0@,
            ) is Some,
    ensures
        *final(conf) == *old(conf),
        match refs_text(
            old(res)@,
            design.entities@,
            old(conf).sim,
            c0@,
            old(conf).all@,
            sch.instances@,
        ) {
            Ok(t) => r matches Ok(_) && final(res)@ == t,
            Err(em) => r matches Err(e) && err_matches(e, em),
        },
{
    let ghost insts = sch.instances@;
    let ghost sim0 = old(conf).sim;
    let ghost all0 = old(conf).all@;
    let mut i: usize = 0;
    proof {
        assert(insts.skip(0) =~= insts);
    }
    while i < sch.instances.len()
        invariant
            0 <= i <= insts.len(),
            *conf == *old(conf),
            refs_text(old(res)@, design.entities@, sim0, c0@, all0, insts) == refs_text(
                res@,
                design.entities@,
                sim0,
                c0@,
                all0,
                insts.skip(i as int),
            ),
        decreases insts.len() - i,
    {
        let ghost n = insts[i as int].0@;
        let ghost inst_i = insts[i as int].1;
        let ghost pre_conf = *conf;
        proof {
            assert(insts.skip(i as int)[0] == insts[i as int]);
            lemma_cache_grown_lookup(c0@, conf.for_inst@, insts, sim0, all0, n);
        }
        let pair = &sch.instances[i];
        let idx = conf.get_conf(&pair.0, &pair.1);
        proof {
            assert(get_conf_post(pre_conf, *conf, n, inst_i, idx as int));
            assert(str_find(pre_conf.for_inst@, n) is Some);
            assert(*conf == pre_conf);
            lemma_str_find_at(conf.for_inst@, n, idx as int);
            // the cached child's core is the core the model names
            let c = child_conf(c0@, sim0, all0, n, inst_i);
            let cached = conf.for_inst@[idx as int].1;
            assert(cached.sim == c.0 && cached.ent as int == c.1 && cached.arch == c.2
                && cached.all@ == c.4) by {
                match str_find(c0@, n) {
                    Some(c_0) => {
                        assert(core_eq(cached, c_0));
                    },
                    None => {
                        let k = choose|k: int|
                            0 <= k < insts.len() && (#[trigger] insts[k]).0@ == n && fresh_core(
                                cached,
                                sim0,
                                insts[k].1,
                                all0,
                            );
                        assert(k == i as int) by {
                            if k < i as int {
                                assert(insts[k].0@ != insts[i as int].0@);
                            } else if k > i as int {
                                assert(insts[i as int].0@ != insts[k].0@);
                            }
                        };
                    },
                }
            };
        }
        let entry = &conf.for_inst[idx];
        let line = match entry.1.reference(design, pair.0.as_str(), &pair.1.genericmap, &pair.1.portmap) {
            Ok(s) => s,
            Err(e) => {
                return Err(e);
            },
        };
        res.append(line.as_str());
        res.append("\n");
        proof {
            assert(insts.skip(i as int).drop_first() =~= insts.skip(i + 1));
        }
        i += 1;
    }
    proof {
        assert(insts.skip(insts.len() as int) =~= Seq::<(String, Instance)>::empty());
    }
    Ok(())
}

/// Synthesizes the definition sequence of a schematic bound by `conf`.
/// Children are visited first, so every sub-block's definition precedes
/// the block that references it; a toplevel schematic becomes one single
/// self-contained definition, any other becomes a subcircuit block
/// appended after its children's definitions.
fn spice_definition(
    design: &Design,
    conf: &mut Configuration,
    sch: &Schematic,
    fuel: usize,
) -> (r: Result<Vec<Definition>, CodeError>)
    requires
        design.wf(),
        sch_wf(*sch),
        old(conf).ent < design.entities@.len(),
    ensures
        final(conf).sim == old(conf).sim,
        final(conf).ent == old(conf).ent,
        final(conf).arch == old(conf).arch,
        final(conf).all == old(conf).all,
        defs_res_matches(
            r,
            spice_def_model(
                design.entities@,
                old(conf).sim,
                old(conf).ent as int,
                old(conf).for_inst@,
                old(conf).all@,
                *sch,
                fuel as nat,
            ),
        ),
    decreases fuel, 3int,
{
    let ghost c0 = old(conf).for_inst@;
    let ghost sim0 = old(conf).sim;
    let ghost all0 = old(conf).all@;
    let sub = match collect_child_defs(design, conf, sch, fuel) {
        Ok(v) => v,
        Err(e) => {
            return Err(e);
        },
    };
    let ghost subm = children_defs(
        Seq::empty(),
        design.entities@,
        sim0,
        c0,
        all0,
        sch.instances@,
        fuel as nat,
    )->Ok_0;
    let ename = &design.entities[conf.ent].name;
    if sch.toplevel {
        let mut res = "* ".to_owned();
        res.append(ename.as_str());
        res.append("\n");
        let ghost hdr = res@;
        let mut i: usize = 0;
        proof {
            assert(defs_views(sub@).skip(0) =~= defs_views(sub@));
        }
        while i < sub.len()
            invariant
                0 <= i <= sub@.len(),
                defs_views(sub@).len() == sub@.len(),
                inline_defs(hdr, defs_views(sub@)) == inline_defs(
                    res@,
                    defs_views(sub@).skip(i as int),
                ),
            decreases sub@.len() - i,
        {
            proof {
                assert(defs_views(sub@).skip(i as int)[0] == defs_views(sub@)[i as int]);
                assert(defs_views(sub@)[i as int] == sub@[i as int]@);
            }
            let ghost acc0 = res@;
            match &sub[i] {
                Definition::Code(c) => {
                    res.append(c.as_str());
                    proof {
                        assert(res@ + "\n"@ =~= acc0 + (c@ + "\n"@));
                    }
                },
                Definition::Library(l) => {
                    res.append(".lib ");
                    res.append(l.as_str());
                    proof {
                        assert(res@ + "\n"@ =~= acc0 + (".lib "@ + l@ + "\n"@));
                    }
                },
                Definition::Primitive => {
                    proof {
                        assert(res@ + "\n"@ =~= acc0 + "\n"@);
                    }
                },
            }
            res.append("\n");
            proof {
                assert(defs_views(sub@).skip(i as int).drop_first() =~= defs_views(sub@).skip(
                    i + 1,
                ));
            }
            i += 1;
        }
        proof {
            assert(defs_views(sub@).skip(sub@.len() as int) =~= Seq::<DefView>::empty());
        }
        match build_refs(design, conf, sch, &mut res, Ghost(c0)) {
            Ok(_) => {},
            Err(e) => {
                return Err(e);
            },
        }
        res.append(".end\n");
        let mut defs: Vec<Definition> = Vec::new();
        defs.push(Definition::Code(res));
        proof {
            assert(!Seq::<DefView>::empty().contains(defs@[0]@));
            assert(defs_views(defs@) =~= Seq::<DefView>::empty().push(defs@[0]@));
        }
        Ok(defs)
    } else {
        let mut res = ".subckt ".to_owned();
        res.append(ename.as_str());
        let ghost hdr = res@;
        let e = &design.entities[conf.ent];
        let mut i: usize = 0;
        proof {
            assert(e.port@.skip(0) =~= e.port@);
        }
        while i < e.port.len()
            invariant
                0 <= i <= e.port@.len(),
                ports_decl(hdr, e.port@) == ports_decl(res@, e.port@.skip(i as int)),
            decreases e.port@.len() - i,
        {
            proof {
                assert(e.port@.skip(i as int)[0] == e.port@[i as int]);
            }
            res.append(" ");
            res.append(e.port[i].as_str());
            proof {
                assert(e.port@.skip(i as int).drop_first() =~= e.port@.skip(i + 1));
            }
            i += 1;
        }
        proof {
            assert(e.port@.skip(e.port@.len() as int) =~= Seq::<String>::empty());
        }
        res.append("\n");
        match build_refs(design, conf, sch, &mut res, Ghost(c0)) {
            Ok(_) => {},
            Err(e) => {
                return Err(e);
            },
        }
        res.append(".ends ");
        res.append(ename.as_str());
        let own = Definition::Code(res);
        let mut defs = sub;
        if !defs_contains(&defs, &own) {
            let ghost before = defs@;
            defs.push(own);
            proof {
                assert(defs_views(defs@) =~= defs_views(before).push(DefView::Code(
                    defs@[defs@.len() - 1]@->Code_0,
                )));
            }
        }
        Ok(defs)
    }
}

impl Ngspice {
    /// The definition sequence this backend synthesizes for a schematic
    /// that has no matching code dialect.
    pub fn synthesize_definition(
        &self,
        design: &Design,
        conf: &mut Configuration,
        sch: &Schematic,
        fuel: usize,
    ) -> (r: Result<Vec<Definition>, CodeError>)
        requires
            design.wf(),
            sch_wf(*sch),
            old(conf).ent < design.entities@.len(),
        ensures
            final(conf).sim == old(conf).sim,
            final(conf).ent == old(conf).ent,
            final(conf).arch == old(conf).arch,
            final(conf).all == old(conf).all,
            defs_res_matches(
                r,
                spice_def_model(
                    design.entities@,
                    old(conf).sim,
                    old(conf).ent as int,
                    old(conf).for_inst@,
                    old(conf).all@,
                    *sch,
                    fuel as nat,
                ),
            ),
        decreases fuel, 4int,
    {
        spice_definition(design, conf, sch, fuel)
    }

    /// The reference line this backend synthesizes for one instance of
    /// the configured entity.
    pub fn synthesize_reference(
        &self,
        design: &Design,
        conf: &Configuration,
        name: &str,
        genericmap: &Vec<(String, String)>,
        portmap: &Vec<(String, String)>,
    ) -> (r: Result<String, CodeError>)
        requires
            conf.ent < design.entities@.len(),
        ensures
            str_res_matches(
                r,
                spice_ref_model(design.entities@[conf.ent as int], name@, genericmap@, portmap@),
            ),
    {
        spice_reference(design, conf, name, genericmap, portmap)
    }
}

impl Simulator {
    /// The best-matching code implementation for this backend, or none.
    pub fn get_dialect<'a>(&self, arch: &'a CodeDialectArch) -> (r: Option<&'a CodeArch>)
        ensures
            match r {
                Some(c) => dialect_model(*self, arch.dialects@) == Some(*c),
                None => dialect_model(*self, arch.dialects@) is None,
            },
    {
        match self {
            Simulator::Ngspice(n) => n.get_dialect(arch),
        }
    }

    /// The definition sequence this backend synthesizes for a schematic
    /// that has no matching code dialect.
    pub fn synthesize_definition(
        &self,
        design: &Design,
        conf: &mut Configuration,
        sch: &Schematic,
        fuel: usize,
    ) -> (r: Result<Vec<Definition>, CodeError>)
        requires
            design.wf(),
            sch_wf(*sch),
            old(conf).ent < design.entities@.len(),
        ensures
            final(conf).sim == old(conf).sim,
            final(conf).ent == old(conf).ent,
            final(conf).arch == old(conf).arch,
            final(conf).all == old(conf).all,
            match *self {
                Simulator::Ngspice(_) => defs_res_matches(
                    r,
                    spice_def_model(
                        design.entities@,
                        old(conf).sim,
                        old(conf).ent as int,
                        old(conf).for_inst@,
                        old(conf).all@,
                        *sch,
                        fuel as nat,
                    ),
                ),
            },
        decreases fuel, 5int,
    {
        match self {
            Simulator::Ngspice(n) => n.synthesize_definition(design, conf, sch, fuel),
        }
    }

    /// The reference line this backend synthesizes for one instance of
    /// the configured entity, when synthesis rather than a stored
    /// template is the source of that text.
    pub fn synthesize_reference(
        &self,
        design: &Design,
        conf: &Configuration,
        name: &str,
        genericmap: &Vec<(String, String)>,
        portmap: &Vec<(String, String)>,
    ) -> (r: Result<String, CodeError>)
        requires
            conf.ent < design.entities@.len(),
        ensures
            match *self {
                Simulator::Ngspice(_) => str_res_matches(
                    r,
                    spice_ref_model(
                        design.entities@[conf.ent as int],
                        name@,
                        genericmap@,
                        portmap@,
                    ),
                ),
            },
    {
        match self {
            Simulator::Ngspice(n) => n.synthesize_reference(design, conf, name, genericmap, portmap),
        }
    }
}

} // verus!
