//! The mathematical model of resolution and synthesis. Every executable
//! operation of the library is specified as equal to one of these spec
//! functions, so the contracts below are the single description of what
//! the engine produces.
use vstd::prelude::*;

use crate::assoc::str_find;
use crate::config::Configuration;
use crate::data::Arch;
use crate::data::CodeError;
use crate::data::DefView;
use crate::data::Definition;
use crate::data::Entity;
use crate::data::Instance;
use crate::data::Schematic;
use crate::data::defs_views;
use crate::simulator::Simulator;
use crate::simulator::dialect_model;
use crate::template::template_ref_model;

verus! {

/// The abstract shape of a synthesis error: no dialect resolved, a
/// structural mismatch with its message, or a template failure.
pub enum SynthErr {
    Dialect,
    Compile(Seq<char>),
    Template,
}

/// Whether the concrete error `e` is the one the model names.
pub open spec fn err_matches(e: CodeError, m: SynthErr) -> bool {
    match m {
        SynthErr::Dialect => e is DialectError,
        SynthErr::Compile(msg) => e matches CodeError::CompileError(s) && s@ == msg,
        SynthErr::Template => e matches CodeError::TemplateError(_),
    }
}

/// Whether a concrete text result is the one the model describes.
pub open spec fn str_res_matches(r: Result<String, CodeError>, m: Result<Seq<char>, SynthErr>) -> bool {
    match m {
        Ok(t) => r matches Ok(s) && s@ == t,
        Err(em) => r matches Err(e) && err_matches(e, em),
    }
}

/// Whether a concrete definition-sequence result is the one the model
/// describes.
pub open spec fn defs_res_matches(
    r: Result<Vec<Definition>, CodeError>,
    m: Result<Seq<DefView>, SynthErr>,
) -> bool {
    match m {
        Ok(ds) => r matches Ok(v) && defs_views(v@) == ds,
        Err(em) => r matches Err(e) && err_matches(e, em),
    }
}

/// The first architecture, in declared order, that the backend can
/// synthesize: a schematic always can; a code table only when the
/// backend's dialect lookup succeeds on it.
pub open spec fn first_supported(sim: Simulator, archs: Seq<(String, Arch)>) -> Option<Arch>
    decreases archs.len(),
{
    if archs.len() <= 0 {
        None
    } else {
        match archs[0].1 {
            Arch::Schematic(_) => Some(archs[0].1),
            Arch::Code(cda) => if dialect_model(sim, cda.dialects@) is Some {
                Some(archs[0].1)
            } else {
                first_supported(sim, archs.drop_first())
            },
        }
    }
}

/// Architecture resolution, strongest specification first: an explicit
/// architecture name is looked up directly (no fallback); else a
/// design-wide override for the entity's name is looked up directly;
/// else the first architecture the backend supports is taken.
pub open spec fn arch_model(
    design: Seq<Entity>,
    ent: int,
    sim: Simulator,
    arch: Option<String>,
    all: Seq<(String, String)>,
) -> Option<Arch> {
    if !(0 <= ent < design.len()) {
        None
    } else {
        let e = design[ent];
        match arch {
            Some(a) => str_find(e.archs@, a@),
            None => match str_find(all, e.name@) {
                Some(a) => str_find(e.archs@, a@),
                None => first_supported(sim, e.archs@),
            },
        }
    }
}

/// A supported architecture returned by the fallback scan is one of the
/// entity's own architectures.
pub proof fn lemma_first_supported_element(sim: Simulator, archs: Seq<(String, Arch)>)
    requires
        first_supported(sim, archs) is Some,
    ensures
        exists|j: int|
            0 <= j < archs.len() && (#[trigger] archs[j]).1 == first_supported(sim, archs)->0,
    decreases archs.len(),
{
    let head_hit = match archs[0].1 {
        Arch::Schematic(_) => true,
        Arch::Code(cda) => dialect_model(sim, cda.dialects@) is Some,
    };
    if head_hit {
        assert(archs[0].1 == first_supported(sim, archs)->0);
    } else {
        lemma_first_supported_element(sim, archs.drop_first());
        let j0 = choose|j: int|
            0 <= j < archs.drop_first().len() && (#[trigger] archs.drop_first()[j]).1
                == first_supported(sim, archs.drop_first())->0;
        assert(archs[j0 + 1] == archs.drop_first()[j0]);
    }
}

/// A resolved architecture is one of the configured entity's own
/// architectures, and the entity index is in bounds.
pub proof fn lemma_arch_model_element(
    design: Seq<Entity>,
    ent: int,
    sim: Simulator,
    arch: Option<String>,
    all: Seq<(String, String)>,
)
    requires
        arch_model(design, ent, sim, arch, all) is Some,
    ensures
        0 <= ent < design.len(),
        exists|j: int|
            0 <= j < design[ent].archs@.len() && (#[trigger] design[ent].archs@[j]).1 == arch_model(
                design,
                ent,
                sim,
                arch,
                all,
            )->0,
{
    let e = design[ent];
    match arch {
        Some(a) => {
            crate::assoc::lemma_str_find_first(e.archs@, a@);
        },
        None => match str_find(all, e.name@) {
            Some(a) => {
                crate::assoc::lemma_str_find_first(e.archs@, a@);
            },
            None => {
                lemma_first_supported_element(sim, e.archs@);
            },
        },
    }
}

/// The nets of `ports`, in declared order, each preceded by a space and
/// appended to `acc`; the first port missing from `pm` is a structural
/// error naming the port and the instance.
pub open spec fn ports_text(
    acc: Seq<char>,
    ports: Seq<String>,
    pm: Seq<(String, String)>,
    name: Seq<char>,
) -> Result<Seq<char>, SynthErr>
    decreases ports.len(),
{
    if ports.len() <= 0 {
        Ok(acc)
    } else {
        match str_find(pm, ports[0]@) {
            None => Err(SynthErr::Compile("no "@ + ports[0]@ + " in "@ + name)),
            Some(net) => ports_text(acc + " "@ + net@, ports.drop_first(), pm, name),
        }
    }
}

/// The `name=value` pairs of `gens`, in declared order, appended to
/// `acc`; the first generic missing from `gm` is a structural error
/// naming the generic.
pub open spec fn generics_text(
    acc: Seq<char>,
    gens: Seq<String>,
    gm: Seq<(String, String)>,
) -> Result<Seq<char>, SynthErr>
    decreases gens.len(),
{
    if gens.len() <= 0 {
        Ok(acc)
    } else {
        match str_find(gm, gens[0]@) {
            None => Err(SynthErr::Compile(gens[0]@)),
            Some(v) => generics_text(acc + " "@ + gens[0]@ + "="@ + v@, gens.drop_first(), gm),
        }
    }
}

/// The synthesized reference line for one instance of entity `e`: the
/// prefix `x`, the instance name, the nets in declared port order, the
/// entity name, then the generics in declared order.
pub open spec fn spice_ref_model(
    e: Entity,
    name: Seq<char>,
    gm: Seq<(String, String)>,
    pm: Seq<(String, String)>,
) -> Result<Seq<char>, SynthErr> {
    match ports_text("x"@ + name, e.port@, pm, name) {
        Err(er) => Err(er),
        Ok(t) => generics_text(t + " "@ + e.name@, e.generic@, gm),
    }
}

/// The reference text for one instance of a configured entity: resolve
/// the architecture, then either render the dialect's stored template or
/// synthesize a reference line.
pub open spec fn ref_model(
    design: Seq<Entity>,
    sim: Simulator,
    ent: int,
    arch: Option<String>,
    all: Seq<(String, String)>,
    name: Seq<char>,
    gm: Seq<(String, String)>,
    pm: Seq<(String, String)>,
) -> Result<Seq<char>, SynthErr> {
    match arch_model(design, ent, sim, arch, all) {
        None => Err(SynthErr::Dialect),
        Some(a) => match a {
            Arch::Code(cda) => match dialect_model(sim, cda.dialects@) {
                None => Err(SynthErr::Dialect),
                Some(ca) => template_ref_model(ca.reference@, name, gm, pm),
            },
            Arch::Schematic(_) => match sim {
                Simulator::Ngspice(_) => spice_ref_model(design[ent], name, gm, pm),
            },
        },
    }
}

/// Appends `d` unless an equal definition is already present: insertion
/// order is kept and the first occurrence wins.
pub open spec fn dedup_push(s: Seq<DefView>, d: DefView) -> Seq<DefView> {
    if s.contains(d) {
        s
    } else {
        s.push(d)
    }
}

/// Folds `dedup_push` over `t` from the left.
pub open spec fn dedup_extend(s: Seq<DefView>, t: Seq<DefView>) -> Seq<DefView>
    decreases t.len(),
{
    if t.len() <= 0 {
        s
    } else {
        dedup_extend(dedup_push(s, t[0]), t.drop_first())
    }
}

/// The child configuration used for instance `name`: the cached one if
/// the parent's cache holds that name, else a fresh one binding the
/// instance's entity with no architecture choice and the parent's
/// overrides. Decomposed as (sim, entity, arch, cache, overrides).
pub open spec fn child_conf(
    cache: Seq<(String, Configuration)>,
    sim: Simulator,
    all: Seq<(String, String)>,
    name: Seq<char>,
    inst: Instance,
) -> (Simulator, int, Option<String>, Seq<(String, Configuration)>, Seq<(String, String)>) {
    match str_find(cache, name) {
        Some(c) => (c.sim, c.ent as int, c.arch, c.for_inst@, c.all@),
        None => (sim, inst.entity as int, Option::<String>::None, Seq::empty(), all),
    }
}

/// The definition sequence contributed by one instance: the definition
/// of its child configuration.
pub open spec fn child_def(
    design: Seq<Entity>,
    sim: Simulator,
    cache: Seq<(String, Configuration)>,
    all: Seq<(String, String)>,
    name: Seq<char>,
    inst: Instance,
    f: nat,
) -> Result<Seq<DefView>, SynthErr>
    decreases f, 1int, 0int,
{
    let c = child_conf(cache, sim, all, name, inst);
    def_model(design, c.0, c.1, c.2, c.3, c.4, f)
}

/// Every instance's definitions, in instance order, merged with
/// deduplication into `acc`; the first failing instance aborts the fold.
pub open spec fn children_defs(
    acc: Seq<DefView>,
    design: Seq<Entity>,
    sim: Simulator,
    cache: Seq<(String, Configuration)>,
    all: Seq<(String, String)>,
    insts: Seq<(String, Instance)>,
    f: nat,
) -> Result<Seq<DefView>, SynthErr>
    decreases f, 2int, insts.len(),
{
    if insts.len() <= 0 {
        Ok(acc)
    } else {
        match child_def(design, sim, cache, all, insts[0].0@, insts[0].1, f) {
            Err(e) => Err(e),
            Ok(ds) => children_defs(
                dedup_extend(acc, ds),
                design,
                sim,
                cache,
                all,
                insts.drop_first(),
                f,
            ),
        }
    }
}

/// One reference line per instance, each followed by a newline, appended
/// to `acc` in instance order; the first failing instance aborts.
pub open spec fn refs_text(
    acc: Seq<char>,
    design: Seq<Entity>,
    sim: Simulator,
    cache: Seq<(String, Configuration)>,
    all: Seq<(String, String)>,
    insts: Seq<(String, Instance)>,
) -> Result<Seq<char>, SynthErr>
    decreases insts.len(),
{
    if insts.len() <= 0 {
        Ok(acc)
    } else {
        let c = child_conf(cache, sim, all, insts[0].0@, insts[0].1);
        match ref_model(
            design,
            c.0,
            c.1,
            c.2,
            c.4,
            insts[0].0@,
            insts[0].1.genericmap@,
            insts[0].1.portmap@,
        ) {
            Err(e) => Err(e),
            Ok(line) => refs_text(acc + line + "\n"@, design, sim, cache, all, insts.drop_first()),
        }
    }
}

/// The declared ports, each preceded by a space, appended to `acc`.
pub open spec fn ports_decl(acc: Seq<char>, ports: Seq<String>) -> Seq<char>
    decreases ports.len(),
{
    if ports.len() <= 0 {
        acc
    } else {
        ports_decl(acc + " "@ + ports[0]@, ports.drop_first())
    }
}

/// The collected definitions inlined as text: code contributes its text,
/// a library contributes an inclusion directive with its path, a
/// primitive contributes no text; each is followed by a newline.
pub open spec fn inline_defs(acc: Seq<char>, defs: Seq<DefView>) -> Seq<char>
    decreases defs.len(),
{
    if defs.len() <= 0 {
        acc
    } else {
        let piece = match defs[0] {
            DefView::Code(c) => c + "\n"@,
            DefView::Library(l) => ".lib "@ + l + "\n"@,
            DefView::Primitive => "\n"@,
        };
        inline_defs(acc + piece, defs.drop_first())
    }
}

/// Synthesis of a schematic. Non-toplevel: the children's definitions in
/// dependency order, deduplicated, then one new definition holding the
/// subcircuit header (entity name and declared ports), the reference
/// lines, and the footer. Toplevel: one single self-contained definition
/// holding a comment header, the children's definitions inlined, the
/// reference lines, and the program terminator.
pub open spec fn spice_def_model(
    design: Seq<Entity>,
    sim: Simulator,
    ent: int,
    cache: Seq<(String, Configuration)>,
    all: Seq<(String, String)>,
    sch: Schematic,
    f: nat,
) -> Result<Seq<DefView>, SynthErr>
    decreases f, 3int, 0int,
{
    match children_defs(Seq::empty(), design, sim, cache, all, sch.instances@, f) {
        Err(e) => Err(e),
        Ok(sub) => {
            if sch.toplevel {
                match refs_text(
                    inline_defs("* "@ + design[ent].name@ + "\n"@, sub),
                    design,
                    sim,
                    cache,
                    all,
                    sch.instances@,
                ) {
                    Err(e) => Err(e),
                    Ok(t) => Ok(dedup_push(Seq::empty(), DefView::Code(t + ".end\n"@))),
                }
            } else {
                match refs_text(
                    ports_decl(".subckt "@ + design[ent].name@, design[ent].port@) + "\n"@,
                    design,
                    sim,
                    cache,
                    all,
                    sch.instances@,
                ) {
                    Err(e) => Err(e),
                    Ok(t) => Ok(dedup_push(sub, DefView::Code(t + ".ends "@ + design[ent].name@))),
                }
            }
        },
    }
}

/// The definition sequence of a configured entity: with no resolvable
/// architecture or dialect the definition fails with a dialect error; a
/// code architecture yields its dialect's stored definition; a schematic
/// is synthesized by the backend. Only the descent into a schematic
/// consumes fuel, which bounds the recursion depth: an acyclic design
/// never exhausts it, and a design whose entity graph is cyclic fails
/// with a structural error instead of descending forever.
pub open spec fn def_model(
    design: Seq<Entity>,
    sim: Simulator,
    ent: int,
    arch: Option<String>,
    cache: Seq<(String, Configuration)>,
    all: Seq<(String, String)>,
    fuel: nat,
) -> Result<Seq<DefView>, SynthErr>
    decreases fuel, 0int, 0int,
{
    match arch_model(design, ent, sim, arch, all) {
        None => Err(SynthErr::Dialect),
        Some(a) => match a {
            Arch::Code(cda) => match dialect_model(sim, cda.dialects@) {
                None => Err(SynthErr::Dialect),
                Some(ca) => Ok(dedup_push(Seq::empty(), ca.definition@)),
            },
            Arch::Schematic(sch) => if fuel <= 0 {
                Err(SynthErr::Compile("recursive design"@))
            } else {
                match sim {
                    Simulator::Ngspice(_) => spice_def_model(
                        design,
                        sim,
                        ent,
                        cache,
                        all,
                        sch,
                        (fuel - 1) as nat,
                    ),
                }
            },
        },
    }
}

} // verus!
