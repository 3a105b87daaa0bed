//! The circuit data model: entities, architectures, schematics, instances,
//! and the definitions that synthesis emits.
use vstd::prelude::*;

verus! {

/// A graphical symbol for an entity. Carried for completeness; synthesis
/// never reads it.
pub struct Symbol;

/// One placement of an entity inside a schematic: bound generic values,
/// port-to-net bindings, layout coordinates, and the index of the placed
/// entity inside the enclosing [`Design`].
pub struct Instance {
    /// Port name to net name, net names local to the enclosing schematic.
    pub portmap: Vec<(String, String)>,
    /// Generic parameter name to value.
    pub genericmap: Vec<(String, String)>,
    pub x: i64,
    pub y: i64,
    /// Index of the instantiated entity in the design's entity arena.
    pub entity: usize,
}

/// A composed architecture: a collection of named instances of other
/// entities. A toplevel schematic emits a complete standalone program;
/// a non-toplevel one emits a reusable subcircuit block.
pub struct Schematic {
    pub toplevel: bool,
    pub instances: Vec<(String, Instance)>,
}

/// A named, reusable circuit block with declared generic parameters,
/// declared ports, and its architectures in declaration order.
pub struct Entity {
    pub name: String,
    pub symbol: Symbol,
    pub generic: Vec<String>,
    pub port: Vec<String>,
    pub archs: Vec<(String, Arch)>,
}

/// One concrete implementation of an entity: a composed schematic, or a
/// table of per-dialect code.
pub enum Arch {
    Schematic(Schematic),
    Code(CodeDialectArch),
}

/// A definition in some language paired with a template for referencing it.
pub struct CodeArch {
    pub definition: Definition,
    pub reference: String,
}

/// Maps a dialect name to the code implementing a block in that dialect.
pub struct CodeDialectArch {
    pub dialects: Vec<(String, CodeArch)>,
}

impl CodeDialectArch {
    pub fn new() -> (r: CodeDialectArch)
        ensures
            r.dialects@ == Seq::<(String, CodeArch)>::empty(),
    {
        CodeDialectArch { dialects: Vec::new() }
    }
}

/// The arena that owns every entity of a design. Instances and
/// configurations refer to entities by index, so one entity is shared by
/// every instantiation of it.
pub struct Design {
    pub entities: Vec<Entity>,
}

/// A synthesis failure: no architecture or dialect could be resolved; a
/// structural mismatch while emitting text, with its description; or an
/// error of the templating engine, propagated verbatim.
#[derive(Debug)]
pub enum CodeError {
    DialectError,
    CompileError(String),
    TemplateError(handlebars::RenderError),
}

/// The emitted payload implementing one entity/architecture combination:
/// inline source text, an external library path, or a marker for a
/// backend-native primitive that needs no definition text.
pub enum Definition {
    Code(String),
    Library(String),
    Primitive,
}

/// The mathematical value of a [`Definition`]: the same three shapes over
/// character sequences.
pub enum DefView {
    Code(Seq<char>),
    Library(Seq<char>),
    Primitive,
}

impl View for Definition {
    type V = DefView;

    open spec fn view(&self) -> DefView {
        match self {
            Definition::Code(s) => DefView::Code(s@),
            Definition::Library(p) => DefView::Library(p@),
            Definition::Primitive => DefView::Primitive,
        }
    }
}

impl Clone for Definition {
    fn clone(&self) -> (res: Self)
        ensures
            res == *self,
    {
        match self {
            Definition::Code(s) => Definition::Code(s.clone()),
            Definition::Library(p) => Definition::Library(p.clone()),
            Definition::Primitive => Definition::Primitive,
        }
    }
}

/// Decides equality of the mathematical values of two definitions.
pub fn def_eq(a: &Definition, b: &Definition) -> (r: bool)
    ensures
        r == (a@ == b@),
{
    match (a, b) {
        (Definition::Code(x), Definition::Code(y)) => *x == *y,
        (Definition::Library(x), Definition::Library(y)) => *x == *y,
        (Definition::Primitive, Definition::Primitive) => true,
        _ => false,
    }
}

/// The views of a sequence of definitions, elementwise.
pub open spec fn defs_views(s: Seq<Definition>) -> Seq<DefView> {
    s.map_values(|d: Definition| d@)
}

/// Decides whether `d`'s value already occurs among the values in `v`.
pub fn defs_contains(v: &Vec<Definition>, d: &Definition) -> (r: bool)
    ensures
        r == defs_views(v@).contains(d@),
{
    let mut i: usize = 0;
    while i < v.len()
        invariant
            0 <= i <= v@.len(),
            forall|l: int| 0 <= l < i ==> v@[l]@ != d@,
        decreases v@.len() - i,
    {
        if def_eq(&v[i], d) {
            assert(defs_views(v@)[i as int] == d@);
            return true;
        }
        i += 1;
    }
    assert(forall|l: int| 0 <= l < defs_views(v@).len() ==> defs_views(v@)[l] != d@);
    false
}

/// Instance names within one schematic are pairwise distinct.
pub open spec fn distinct_names(insts: Seq<(String, Instance)>) -> bool {
    forall|i: int, j: int| 0 <= i < j < insts.len() ==> insts[i].0@ != insts[j].0@
}

/// Well-formedness of a schematic: its instance names are distinct.
pub open spec fn sch_wf(s: Schematic) -> bool {
    distinct_names(s.instances@)
}

/// Well-formedness of one architecture.
pub open spec fn arch_wf(a: Arch) -> bool {
    match a {
        Arch::Schematic(s) => sch_wf(s),
        Arch::Code(_) => true,
    }
}

/// Well-formedness of an entity: every schematic architecture is well-formed.
pub open spec fn ent_wf(e: Entity) -> bool {
    forall|j: int| 0 <= j < e.archs@.len() ==> arch_wf(#[trigger] e.archs@[j].1)
}

impl Design {
    /// Well-formedness of a design: every entity is well-formed.
    pub open spec fn wf(&self) -> bool {
        forall|i: int| 0 <= i < self.entities@.len() ==> ent_wf(#[trigger] self.entities@[i])
    }
}

} // verus!
