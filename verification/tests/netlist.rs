use netlist::Arch;
use netlist::CodeArch;
use netlist::CodeDialectArch;
use netlist::CodeError;
use netlist::Configuration;
use netlist::Definition;
use netlist::Design;
use netlist::Entity;
use netlist::Instance;
use netlist::Ngspice;
use netlist::Schematic;
use netlist::Simulator;
use netlist::Symbol;
use netlist::def_eq;

fn sim() -> Simulator {
    Simulator::Ngspice(Ngspice)
}

fn pairs(kv: &[(&str, &str)]) -> Vec<(String, String)> {
    kv.iter().map(|(k, v)| (k.to_string(), v.to_string())).collect()
}

fn mos_entity(name: &str, model: &str) -> Entity {
    let code = CodeArch {
        reference: format!(
            "m{{{{name}}}} {{{{port.d}}}} {{{{port.g}}}} {{{{port.s}}}} {{{{port.b}}}} {} W={{{{generic.w}}}} L={{{{generic.l}}}}",
            model
        ),
        definition: Definition::Code(format!(".model {}", model)),
    };
    let mut spicemos = CodeDialectArch::new();
    spicemos.dialects.push(("spice".to_string(), code));
    Entity {
        name: name.to_string(),
        symbol: Symbol,
        generic: vec!["w".to_string(), "l".to_string()],
        port: vec!["g".to_string(), "d".to_string(), "s".to_string(), "b".to_string()],
        archs: vec![("rtl".to_string(), Arch::Code(spicemos))],
    }
}

#[test]
fn circuit() {
    let pmos = mos_entity("pmos", "PMOS");
    let nmos = mos_entity("nmos", "NMOS");

    let mut cir = Schematic { toplevel: true, instances: Vec::new() };
    cir.instances.push((
        "pmos1".to_string(),
        Instance {
            genericmap: Vec::new(),
            portmap: pairs(&[("g", "in"), ("d", "mid"), ("s", "vdd"), ("b", "vdd")]),
            x: 0,
            y: 0,
            entity: 0,
        },
    ));
    cir.instances.push((
        "nmos1".to_string(),
        Instance {
            genericmap: Vec::new(),
            portmap: pairs(&[("g", "in"), ("d", "mid"), ("s", "vss"), ("b", "vss")]),
            x: 0,
            y: 0,
            entity: 1,
        },
    ));
    cir.instances.push((
        "pmos2".to_string(),
        Instance {
            genericmap: Vec::new(),
            portmap: pairs(&[("g", "mid"), ("d", "out"), ("s", "vdd"), ("b", "vdd")]),
            x: 0,
            y: 0,
            entity: 0,
        },
    ));
    cir.instances.push((
        "nmos2".to_string(),
        Instance {
            genericmap: Vec::new(),
            portmap: pairs(&[("g", "mid"), ("d", "out"), ("s", "vss"), ("b", "vss")]),
            x: 0,
            y: 0,
            entity: 1,
        },
    ));
    let top = Entity {
        name: "buf".to_string(),
        symbol: Symbol,
        port: vec!["vdd".to_string(), "gnd".to_string(), "in".to_string(), "out".to_string()],
        generic: Vec::new(),
        archs: vec![("default".to_string(), Arch::Schematic(cir))],
    };
    let design = Design { entities: vec![pmos, nmos, top] };
    let mut conf = Configuration {
        sim: sim(),
        ent: 2,
        arch: Some("default".to_string()),
        for_inst: Vec::new(),
        all: Vec::new(),
    };
    let defs = conf.definition(&design).unwrap();
    if let Definition::Code(code) = &defs[0] {
        println!("{}", code);
    }
}

#[test]
fn code_arch() {
    let code = CodeArch {
        reference: "{{generic.name}}, {{port.platitude}}".to_string(),
        definition: Definition::Code("hello".to_string()),
    };
    let generics = pairs(&[("name", "world")]);
    let ports = pairs(&[("platitude", "whatsup")]);
    let defs = code.definition().unwrap();
    assert_eq!(defs.len(), 1);
    assert!(def_eq(&defs[0], &Definition::Code("hello".to_string())));
    assert_eq!(code.reference("foo", &generics, &ports).unwrap(), "world, whatsup");
}

fn dialect_table(names: &[&str]) -> CodeDialectArch {
    let mut t = CodeDialectArch::new();
    for n in names {
        t.dialects.push((
            n.to_string(),
            CodeArch {
                reference: format!("{} ref", n),
                definition: Definition::Code(format!("{} def", n)),
            },
        ));
    }
    t
}

#[test]
fn dialect_fallback_specific_wins() {
    let t = dialect_table(&["spice", "ngspice"]);
    let chosen = sim().get_dialect(&t).unwrap();
    assert_eq!(chosen.reference, "ngspice ref");
}

#[test]
fn dialect_fallback_generic_only() {
    let t = dialect_table(&["spice"]);
    let chosen = Ngspice.get_dialect(&t).unwrap();
    assert_eq!(chosen.reference, "spice ref");
}

#[test]
fn dialect_fallback_neither() {
    let t = dialect_table(&["verilog"]);
    assert!(sim().get_dialect(&t).is_none());
}

/// An entity with two architectures: "first" has no dialect this backend
/// knows, "second" is generic spice, so the declared-order fallback picks
/// "second".
fn two_arch_design() -> Design {
    let e = Entity {
        name: "cell".to_string(),
        symbol: Symbol,
        generic: Vec::new(),
        port: Vec::new(),
        archs: vec![
            ("first".to_string(), Arch::Code(dialect_table(&["verilog"]))),
            ("second".to_string(), Arch::Code(dialect_table(&["spice"]))),
            ("third".to_string(), Arch::Code(dialect_table(&["ngspice"]))),
        ],
    };
    Design { entities: vec![e] }
}

#[test]
fn arch_precedence_explicit_wins() {
    let design = two_arch_design();
    let conf = Configuration {
        sim: sim(),
        ent: 0,
        arch: Some("third".to_string()),
        for_inst: Vec::new(),
        all: pairs(&[("cell", "second")]),
    };
    match conf.get_arch(&design).unwrap() {
        Arch::Code(t) => assert_eq!(t.dialects[0].0, "ngspice"),
        _ => panic!("expected a code architecture"),
    }
}

#[test]
fn arch_precedence_global_override() {
    let design = two_arch_design();
    let conf = Configuration {
        sim: sim(),
        ent: 0,
        arch: None,
        for_inst: Vec::new(),
        all: pairs(&[("cell", "third")]),
    };
    match conf.get_arch(&design).unwrap() {
        Arch::Code(t) => assert_eq!(t.dialects[0].0, "ngspice"),
        _ => panic!("expected a code architecture"),
    }
}

#[test]
fn arch_precedence_first_supported() {
    let design = two_arch_design();
    let conf = Configuration {
        sim: sim(),
        ent: 0,
        arch: None,
        for_inst: Vec::new(),
        all: Vec::new(),
    };
    // "first" offers no dialect this backend knows, so "second" is taken.
    match conf.get_arch(&design).unwrap() {
        Arch::Code(t) => assert_eq!(t.dialects[0].0, "spice"),
        _ => panic!("expected a code architecture"),
    }
}

#[test]
fn arch_explicit_absent_is_error() {
    let design = two_arch_design();
    let conf = Configuration {
        sim: sim(),
        ent: 0,
        // an explicit name that does not exist has no fallback
        arch: Some("missing".to_string()),
        for_inst: Vec::new(),
        all: pairs(&[("cell", "second")]),
    };
    assert!(conf.get_arch(&design).is_none());
}

#[test]
fn memoization_same_slot_twice() {
    let _design = two_arch_design();
    let mut conf = Configuration {
        sim: sim(),
        ent: 0,
        arch: None,
        for_inst: Vec::new(),
        all: pairs(&[("cell", "second")]),
    };
    let inst = Instance { portmap: Vec::new(), genericmap: Vec::new(), x: 0, y: 0, entity: 0 };
    let name = "u1".to_string();
    let i1 = conf.get_conf(&name, &inst);
    assert_eq!(conf.for_inst.len(), 1);
    let child_ent = conf.for_inst[i1].1.ent;
    let child_all = conf.for_inst[i1].1.all.clone();
    let i2 = conf.get_conf(&name, &inst);
    assert_eq!(i1, i2);
    assert_eq!(conf.for_inst.len(), 1);
    assert_eq!(conf.for_inst[i2].1.ent, child_ent);
    assert_eq!(conf.for_inst[i2].1.all, child_all);
    // the fresh child binds the instance's entity, leaves its own
    // architecture unset, and copies the parent's overrides
    assert_eq!(child_ent, 0);
    assert!(conf.for_inst[i1].1.arch.is_none());
    assert_eq!(child_all, pairs(&[("cell", "second")]));
}

/// A reusable block with two ports and one generic, implemented as an
/// empty non-toplevel schematic, so its reference line is synthesized.
fn block_design() -> Design {
    let e = Entity {
        name: "blk".to_string(),
        symbol: Symbol,
        generic: vec!["w".to_string()],
        port: vec!["a".to_string(), "b".to_string()],
        archs: vec![(
            "s".to_string(),
            Arch::Schematic(Schematic { toplevel: false, instances: Vec::new() }),
        )],
    };
    Design { entities: vec![e] }
}

#[test]
fn reference_declared_order() {
    let design = block_design();
    let conf = Configuration {
        sim: sim(),
        ent: 0,
        arch: None,
        for_inst: Vec::new(),
        all: Vec::new(),
    };
    let gm = pairs(&[("w", "2")]);
    let pm1 = pairs(&[("a", "n1"), ("b", "n2")]);
    let pm2 = pairs(&[("b", "n2"), ("a", "n1")]);
    let r1 = conf.reference(&design, "u1", &gm, &pm1).unwrap();
    let r2 = conf.reference(&design, "u1", &gm, &pm2).unwrap();
    // the emitted column order follows the entity's declared order,
    // whatever order the map's entries stand in
    assert_eq!(r1, "xu1 n1 n2 blk w=2");
    assert_eq!(r2, r1);
}

#[test]
fn reference_missing_port() {
    let design = block_design();
    let conf = Configuration {
        sim: sim(),
        ent: 0,
        arch: None,
        for_inst: Vec::new(),
        all: Vec::new(),
    };
    let gm = pairs(&[("w", "2")]);
    let pm = pairs(&[("a", "n1")]);
    match conf.reference(&design, "u1", &gm, &pm) {
        Err(CodeError::CompileError(msg)) => assert_eq!(msg, "no b in u1"),
        _ => panic!("expected a compile error naming the port and the instance"),
    }
}

#[test]
fn reference_missing_generic() {
    let design = block_design();
    let conf = Configuration {
        sim: sim(),
        ent: 0,
        arch: None,
        for_inst: Vec::new(),
        all: Vec::new(),
    };
    let gm = Vec::new();
    let pm = pairs(&[("a", "n1"), ("b", "n2")]);
    match conf.reference(&design, "u1", &gm, &pm) {
        Err(CodeError::CompileError(msg)) => assert_eq!(msg, "w"),
        _ => panic!("expected a compile error naming the generic"),
    }
}

#[test]
fn reference_no_dialect_is_error() {
    let e = Entity {
        name: "cell".to_string(),
        symbol: Symbol,
        generic: Vec::new(),
        port: Vec::new(),
        archs: vec![("only".to_string(), Arch::Code(dialect_table(&["verilog"])))],
    };
    let design = Design { entities: vec![e] };
    let mut conf = Configuration {
        sim: sim(),
        ent: 0,
        arch: None,
        for_inst: Vec::new(),
        all: Vec::new(),
    };
    assert!(matches!(
        conf.reference(&design, "u1", &Vec::new(), &Vec::new()),
        Err(CodeError::DialectError)
    ));
    assert!(matches!(conf.definition(&design), Err(CodeError::DialectError)));
}

#[test]
fn reference_template_error() {
    let code = CodeArch {
        reference: "{{#if}}".to_string(),
        definition: Definition::Primitive,
    };
    match code.reference("u1", &Vec::new(), &Vec::new()) {
        Err(CodeError::TemplateError(_)) => {},
        _ => panic!("expected the templating engine's error, propagated verbatim"),
    }
}

#[test]
fn cyclic_design_fails() {
    // an entity whose schematic instantiates the entity itself
    let inst = Instance { portmap: Vec::new(), genericmap: Vec::new(), x: 0, y: 0, entity: 0 };
    let e = Entity {
        name: "loopy".to_string(),
        symbol: Symbol,
        generic: Vec::new(),
        port: Vec::new(),
        archs: vec![(
            "s".to_string(),
            Arch::Schematic(Schematic {
                toplevel: false,
                instances: vec![("self1".to_string(), inst)],
            }),
        )],
    };
    let design = Design { entities: vec![e] };
    let mut conf = Configuration {
        sim: sim(),
        ent: 0,
        arch: None,
        for_inst: Vec::new(),
        all: Vec::new(),
    };
    match conf.definition(&design) {
        Err(CodeError::CompileError(msg)) => assert_eq!(msg, "recursive design"),
        _ => panic!("a cyclic design must end in a fatal error, not recurse forever"),
    }
}

#[test]
fn library_definition_renders_inclusion() {
    let code = CodeArch {
        reference: "x{{name}} lib_cell".to_string(),
        definition: Definition::Library("models/mos.lib".to_string()),
    };
    let mut t = CodeDialectArch::new();
    t.dialects.push(("spice".to_string(), code));
    let cell = Entity {
        name: "lib_cell".to_string(),
        symbol: Symbol,
        generic: Vec::new(),
        port: Vec::new(),
        archs: vec![("rtl".to_string(), Arch::Code(t))],
    };
    let inst = Instance { portmap: Vec::new(), genericmap: Vec::new(), x: 0, y: 0, entity: 0 };
    let top = Entity {
        name: "top".to_string(),
        symbol: Symbol,
        generic: Vec::new(),
        port: Vec::new(),
        archs: vec![(
            "s".to_string(),
            Arch::Schematic(Schematic {
                toplevel: true,
                instances: vec![("u1".to_string(), inst)],
            }),
        )],
    };
    let design = Design { entities: vec![cell, top] };
    let mut conf = Configuration {
        sim: sim(),
        ent: 1,
        arch: None,
        for_inst: Vec::new(),
        all: Vec::new(),
    };
    let defs = conf.definition(&design).unwrap();
    assert_eq!(defs.len(), 1);
    match &defs[0] {
        Definition::Code(text) => {
            assert_eq!(text, "* top\n.lib models/mos.lib\nxu1 lib_cell\n.end\n");
        },
        _ => panic!("a toplevel schematic emits one self-contained definition"),
    }
}

#[test]
fn empty_design_is_dialect_error() {
    // with no entities nothing can resolve: the failure is a dialect
    // error, not a recursion error
    let design = Design { entities: Vec::new() };
    let mut conf = Configuration {
        sim: sim(),
        ent: 0,
        arch: None,
        for_inst: Vec::new(),
        all: Vec::new(),
    };
    assert!(conf.get_arch(&design).is_none());
    assert!(matches!(conf.definition(&design), Err(CodeError::DialectError)));
}
