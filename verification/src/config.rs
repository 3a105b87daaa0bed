//! A configuration binds one entity of a design to a target simulator,
//! carries an optional explicit architecture choice and the design-wide
//! overrides, and memoizes one child configuration per instance name.
use vstd::prelude::*;

use crate::assoc::lemma_str_find_at;
use crate::assoc::lemma_str_find_none;
use crate::assoc::lemma_str_find_first;
use crate::assoc::clone_string_map;
use crate::assoc::map_get;
use crate::assoc::str_find;
use crate::data::Arch;
use crate::data::Design;
use crate::data::Instance;
use crate::data::CodeError;
use crate::model::arch_model;
use crate::model::ref_model;
use crate::model::str_res_matches;
use crate::model::first_supported;
use crate::model::def_model;
use crate::model::defs_res_matches;
use crate::model::lemma_arch_model_element;
use crate::data::Definition;
use crate::data::DefView;
use crate::data::arch_wf;
use crate::data::ent_wf;
use crate::data::sch_wf;
use vstd::string::StringExecFns;
use crate::simulator::Simulator;

verus! {

/// The resolved binding of one entity to one target backend.
pub struct Configuration {
    /// The simulator to target.
    pub sim: Simulator,
    /// The entity to synthesize, as an index into the design's arena.
    pub ent: usize,
    /// The architecture to use for this entity. If none, a design-wide
    /// override is used, or the first architecture the simulator supports.
    pub arch: Option<String>,
    /// The memoized configuration for each sub-instance, by instance name.
    pub for_inst: Vec<(String, Configuration)>,
    /// Design-wide entity-name to architecture-name overrides; the
    /// weakest specification.
    pub all: Vec<(String, String)>,
}

/// The two configurations agree on everything a reference line depends
/// on: simulator, entity, architecture choice, and overrides.
pub open spec fn core_eq(a: Configuration, b: Configuration) -> bool {
    a.sim == b.sim && a.ent == b.ent && a.arch == b.arch && a.all@ == b.all@
}

/// `c` is the fresh child configuration for `inst` under a parent with
/// simulator `sim` and overrides `all`: the instance's entity, no
/// architecture choice, an empty cache, and the parent's overrides.
pub open spec fn default_core(
    c: Configuration,
    sim: Simulator,
    inst: Instance,
    all: Seq<(String, String)>,
) -> bool {
    &&& c.sim == sim
    &&& c.ent == inst.entity
    &&& c.arch is None
    &&& c.for_inst@ == Seq::<(String, Configuration)>::empty()
    &&& c.all@ == all
}

/// Some instance in `insts` is named `n`.
pub open spec fn name_in(insts: Seq<(String, Instance)>, n: Seq<char>) -> bool {
    exists|k: int| 0 <= k < insts.len() && (#[trigger] insts[k]).0@ == n
}

/// `c` has the core of a fresh child for `inst` under a parent with
/// simulator `sim` and overrides `all`; unlike [`default_core`] this says
/// nothing of `c`'s own cache, which later traversal may have filled.
pub open spec fn fresh_core(
    c: Configuration,
    sim: Simulator,
    inst: Instance,
    all: Seq<(String, String)>,
) -> bool {
    c.sim == sim && c.ent == inst.entity && c.arch is None && c.all@ == all
}

/// How a configuration's cache evolves while the instances in `done` are
/// traversed: existing slots keep their name and their core; slots whose
/// name has not been visited are untouched; every appended slot holds a
/// fresh child for one visited instance whose name was not cached before.
pub open spec fn cache_grown(
    c0: Seq<(String, Configuration)>,
    cur: Seq<(String, Configuration)>,
    done: Seq<(String, Instance)>,
    sim: Simulator,
    all: Seq<(String, String)>,
) -> bool {
    &&& cur.len() >= c0.len()
    &&& forall|j: int|
        0 <= j < c0.len() ==> (#[trigger] cur[j]).0@ == c0[j].0@ && core_eq(cur[j].1, c0[j].1)
    &&& forall|j: int|
        0 <= j < c0.len() && !name_in(done, (#[trigger] c0[j]).0@) ==> cur[j] == c0[j]
    &&& forall|j: int|
        c0.len() <= j < cur.len() ==> str_find(c0, (#[trigger] cur[j]).0@) is None && (exists|
            k: int,
        |
            0 <= k < done.len() && (#[trigger] done[k]).0@ == cur[j].0@ && fresh_core(
                cur[j].1,
                sim,
                done[k].1,
                all,
            ))
}

/// What a lookup in the evolved cache yields, relative to the original
/// cache: an unvisited name finds exactly what it found before; a cached
/// name finds a child with the cached core; a name cached only during the
/// traversal finds a fresh child for the instance of that name.
pub proof fn lemma_cache_grown_lookup(
    c0: Seq<(String, Configuration)>,
    cur: Seq<(String, Configuration)>,
    done: Seq<(String, Instance)>,
    sim: Simulator,
    all: Seq<(String, String)>,
    n: Seq<char>,
)
    requires
        cache_grown(c0, cur, done, sim, all),
    ensures
        !name_in(done, n) ==> str_find(cur, n) == str_find(c0, n),
        str_find(c0, n) is Some ==> str_find(cur, n) is Some,
        str_find(cur, n) matches Some(c) ==> match str_find(c0, n) {
            Some(c_0) => core_eq(c, c_0),
            None => exists|k: int|
                0 <= k < done.len() && (#[trigger] done[k]).0@ == n && fresh_core(
                    c,
                    sim,
                    done[k].1,
                    all,
                ),
        },
{
    if str_find(cur, n) is Some {
        lemma_str_find_first(cur, n);
        let j = choose|j: int|
            0 <= j < cur.len() && (#[trigger] cur[j].0@) == n && str_find(cur, n) == Some(
                cur[j].1,
            ) && (forall|l: int| 0 <= l < j ==> cur[l].0@ != n);
        if j < c0.len() {
            assert(c0[j].0@ == n);
            assert forall|l: int| 0 <= l < j implies (#[trigger] c0[l]).0@ != n by {
                assert(cur[l].0@ == c0[l].0@);
            }
            lemma_str_find_at(c0, n, j);
            assert(core_eq(cur[j].1, c0[j].1));
            if !name_in(done, n) {
                assert(cur[j] == c0[j]);
                assert(str_find(cur, n) == str_find(c0, n));
            }
        } else {
            assert(str_find(c0, n) is None);
            let k = choose|k: int|
                0 <= k < done.len() && (#[trigger] done[k]).0@ == cur[j].0@ && fresh_core(
                    cur[j].1,
                    sim,
                    done[k].1,
                    all,
                );
            assert(name_in(done, n));
        }
    } else {
        lemma_str_find_none(cur, n);
        lemma_str_find_none(c0, n);
        assert forall|l: int| 0 <= l < c0.len() implies (#[trigger] c0[l]).0@ != n by {
            assert(cur[l].0@ == c0[l].0@);
        }
    }
}

/// Full description of one `get_conf` call: `i` is the first cache slot
/// holding `name`. If the name was already cached the configuration is
/// unchanged; otherwise exactly one fresh child was appended.
pub open spec fn get_conf_post(
    pre: Configuration,
    post: Configuration,
    name: Seq<char>,
    inst: Instance,
    i: int,
) -> bool {
    &&& post.sim == pre.sim
    &&& post.ent == pre.ent
    &&& post.arch == pre.arch
    &&& post.all == pre.all
    &&& 0 <= i < post.for_inst@.len()
    &&& post.for_inst@[i].0@ == name
    &&& forall|l: int| 0 <= l < i ==> post.for_inst@[l].0@ != name
    &&& if str_find(pre.for_inst@, name) is Some {
        post == pre
    } else {
        &&& i == pre.for_inst@.len()
        &&& post.for_inst@ == pre.for_inst@.push(post.for_inst@[i])
        &&& default_core(post.for_inst@[i].1, pre.sim, inst, pre.all@)
    }
}

impl Configuration {
    /// The selected architecture for this configuration, or none.
    /// Resolution order: the explicit choice, looked up directly; else a
    /// design-wide override for the entity's name, looked up directly;
    /// else the first architecture the simulator supports, in declared
    /// order.
    pub fn get_arch<'a>(&self, design: &'a Design) -> (r: Option<&'a Arch>)
        ensures
            match r {
                Some(a) => arch_model(design.entities@, self.ent as int, self.sim, self.arch, self.all@)
                    == Some(*a),
                None => arch_model(design.entities@, self.ent as int, self.sim, self.arch, self.all@)
                    is None,
            },
    {
        if self.ent >= design.entities.len() {
            return None;
        }
        let e = &design.entities[self.ent];
        if let Some(a) = &self.arch {
            return map_get(&e.archs, a);
        }
        if let Some(an) = map_get(&self.all, &e.name) {
            return map_get(&e.archs, an);
        }
        let mut i: usize = 0;
        proof {
            assert(e.archs@.skip(0) =~= e.archs@);
        }
        while i < e.archs.len()
            invariant
                0 <= i <= e.archs@.len(),
                first_supported(self.sim, e.archs@) == first_supported(
                    self.sim,
                    e.archs@.skip(i as int),
                ),
            decreases e.archs@.len() - i,
        {
            proof {
                assert(e.archs@.skip(i as int)[0] == e.archs@[i as int]);
            }
            let supported: bool = match &e.archs[i].1 {
                Arch::Schematic(_) => true,
                Arch::Code(cda) => self.sim.get_dialect(cda).is_some(),
            };
            if supported {
                return Some(&e.archs[i].1);
            }
            proof {
                assert(e.archs@.skip(i as int).drop_first() =~= e.archs@.skip(i + 1));
            }
            i += 1;
        }
        None
    }

    /// The index of the child configuration for instance `name` in this
    /// configuration's cache. On the first visit of a name a fresh child
    /// is created, binding the instance's entity with the parent's
    /// simulator and overrides; every later visit returns the cached
    /// child unchanged.
    pub fn get_conf(&mut self, name: &String, inst: &Instance) -> (i: usize)
        ensures
            get_conf_post(*old(self), *final(self), name@, *inst, i as int),
    {
        let n = self.for_inst.len();
        let mut j: usize = 0;
        while j < n
            invariant
                0 <= j <= n,
                n == self.for_inst@.len(),
                *self == *old(self),
                forall|l: int| 0 <= l < j ==> self.for_inst@[l].0@ != name@,
            decreases n - j,
        {
            if self.for_inst[j].0 == *name {
                proof {
                    lemma_str_find_at(self.for_inst@, name@, j as int);
                }
                return j;
            }
            j += 1;
        }
        proof {
            lemma_str_find_none(self.for_inst@, name@);
        }
        let child = Configuration {
            sim: self.sim,
            ent: inst.entity,
            arch: None,
            for_inst: Vec::new(),
            all: clone_string_map(&self.all),
        };
        self.for_inst.push((name.clone(), child));
        self.for_inst.len() - 1
    }

    /// The definition sequence of this configuration, bounded by `fuel`
    /// levels of recursive descent.
    pub(crate) fn definition_fuel(&mut self, design: &Design, fuel: usize) -> (r: Result<
        Vec<Definition>,
        CodeError,
    >)
        requires
            design.wf(),
        ensures
            final(self).sim == old(self).sim,
            final(self).ent == old(self).ent,
            final(self).arch == old(self).arch,
            final(self).all == old(self).all,
            defs_res_matches(
                r,
                def_model(
                    design.entities@,
                    old(self).sim,
                    old(self).ent as int,
                    old(self).arch,
                    old(self).for_inst@,
                    old(self).all@,
                    fuel as nat,
                ),
            ),
        decreases fuel, 0int,
    {
        let sim = self.sim;
        match self.get_arch(design) {
            None => Err(CodeError::DialectError),
            Some(a) => match a {
                Arch::Code(cda) => match sim.get_dialect(cda) {
                    None => Err(CodeError::DialectError),
                    Some(ca) => {
                        let r = ca.definition();
                        proof {
                            let d = ca.definition@;
                            assert(!Seq::<DefView>::empty().contains(d));
                            assert(Seq::<DefView>::empty().push(d) =~= seq![d]);
                        }
                        r
                    },
                },
                Arch::Schematic(sch) => {
                    if fuel == 0 {
                        return Err(CodeError::CompileError("recursive design".to_owned()));
                    }
                    proof {
                        lemma_arch_model_element(
                            design.entities@,
                            self.ent as int,
                            self.sim,
                            self.arch,
                            self.all@,
                        );
                        let j = choose|j: int|
                            0 <= j < design.entities@[self.ent as int].archs@.len() && (
                            #[trigger] design.entities@[self.ent as int].archs@[j]).1 == arch_model(
                                design.entities@,
                                self.ent as int,
                                self.sim,
                                self.arch,
                                self.all@,
                            )->0;
                        assert(ent_wf(design.entities@[self.ent as int]));
                        assert(arch_wf(design.entities@[self.ent as int].archs@[j].1));
                        assert(sch_wf(*sch));
                    }
                    sim.synthesize_definition(design, self, sch, fuel - 1)
                },
            },
        }
    }

    /// The complete, dependency-ordered, deduplicated definition sequence
    /// of this configuration's entity. Only the descent into a schematic
    /// consumes recursion budget, which is the number of entities in the
    /// design: every acyclic design fits within it, and a cyclic design
    /// fails with a structural error instead of descending forever.
    pub fn definition(&mut self, design: &Design) -> (r: Result<Vec<Definition>, CodeError>)
        requires
            design.wf(),
        ensures
            final(self).sim == old(self).sim,
            final(self).ent == old(self).ent,
            final(self).arch == old(self).arch,
            final(self).all == old(self).all,
            defs_res_matches(
                r,
                def_model(
                    design.entities@,
                    old(self).sim,
                    old(self).ent as int,
                    old(self).arch,
                    old(self).for_inst@,
                    old(self).all@,
                    design.entities@.len(),
                ),
            ),
    {
        let fuel = design.entities.len();
        self.definition_fuel(design, fuel)
    }

    /// The declaration of this configuration's entity. No supported
    /// dialect uses declarations, so this always fails with a dialect
    /// error.
    pub fn declaration(&self) -> (r: Result<String, CodeError>)
        ensures
            r matches Err(e) && e is DialectError,
    {
        Err(CodeError::DialectError)
    }

    /// The text that instantiates this configuration's entity inside a
    /// parent schematic: the resolved architecture's stored template is
    /// rendered, or the backend synthesizes a reference line; with no
    /// resolvable architecture or dialect the reference fails.
    pub fn reference(
        &self,
        design: &Design,
        name: &str,
        genericmap: &Vec<(String, String)>,
        portmap: &Vec<(String, String)>,
    ) -> (r: Result<String, CodeError>)
        ensures
            str_res_matches(
                r,
                ref_model(
                    design.entities@,
                    self.sim,
                    self.ent as int,
                    self.arch,
                    self.all@,
                    name@,
                    genericmap@,
                    portmap@,
                ),
            ),
    {
        match self.get_arch(design) {
            None => Err(CodeError::DialectError),
            Some(a) => match a {
                Arch::Code(cda) => match self.sim.get_dialect(cda) {
                    None => Err(CodeError::DialectError),
                    Some(ca) => ca.reference(name, genericmap, portmap),
                },
                Arch::Schematic(_) => {
                    assert(self.ent < design.entities@.len());
                    self.sim.synthesize_reference(design, self, name, genericmap, portmap)
                },
            },
        }
    }
}

} // verus!
