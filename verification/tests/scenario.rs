use netlist::Arch;
use netlist::CodeArch;
use netlist::CodeDialectArch;
use netlist::Configuration;
use netlist::Definition;
use netlist::Design;
use netlist::Entity;
use netlist::Instance;
use netlist::Ngspice;
use netlist::Schematic;
use netlist::Simulator;
use netlist::Symbol;

fn pairs(kv: &[(&str, &str)]) -> Vec<(String, String)> {
    kv.iter().map(|(k, v)| (k.to_string(), v.to_string())).collect()
}

fn mos(name: &str, model: &str) -> Entity {
    let code = CodeArch {
        reference: format!(
            "m{{{{name}}}} {{{{port.d}}}} {{{{port.g}}}} {{{{port.s}}}} {{{{port.b}}}} {} W={{{{generic.w}}}} L={{{{generic.l}}}}",
            model
        ),
        definition: Definition::Code(format!(".model {}", model)),
    };
    let mut t = CodeDialectArch::new();
    t.dialects.push(("spice".to_string(), code));
    Entity {
        name: name.to_string(),
        symbol: Symbol,
        generic: vec!["w".to_string(), "l".to_string()],
        port: vec!["g".to_string(), "d".to_string(), "s".to_string(), "b".to_string()],
        archs: vec![("rtl".to_string(), Arch::Code(t))],
    }
}

fn block(name: &str, instances: Vec<(String, Instance)>, toplevel: bool) -> Entity {
    Entity {
        name: name.to_string(),
        symbol: Symbol,
        generic: Vec::new(),
        port: if toplevel {
            Vec::new()
        } else {
            vec!["vdd".to_string(), "gnd".to_string(), "in".to_string(), "out".to_string()]
        },
        archs: vec![("s".to_string(), Arch::Schematic(Schematic { toplevel, instances }))],
    }
}

fn inst(entity: usize, portmap: Vec<(String, String)>, genericmap: Vec<(String, String)>) -> Instance {
    Instance { portmap, genericmap, x: 0, y: 0, entity }
}

#[test]
fn testbench_synthesis() {
    // entity arena: 0 pmos, 1 nmos, 2 inv, 3 buf, 4 vsrc, 5 tb
    let pmos = mos("pmos", "PMOS");
    let nmos = mos("nmos", "NMOS");
    let inv = block(
        "inv",
        vec![
            (
                "mp".to_string(),
                inst(
                    0,
                    pairs(&[("g", "in"), ("d", "out"), ("s", "vdd"), ("b", "vdd")]),
                    pairs(&[("w", "2"), ("l", "1")]),
                ),
            ),
            (
                "mn".to_string(),
                inst(
                    1,
                    pairs(&[("g", "in"), ("d", "out"), ("s", "gnd"), ("b", "gnd")]),
                    pairs(&[("w", "1"), ("l", "1")]),
                ),
            ),
        ],
        false,
    );
    // the buffer instantiates the same inverter twice, in series
    let buf = block(
        "buf",
        vec![
            (
                "i1".to_string(),
                inst(
                    2,
                    pairs(&[("vdd", "vdd"), ("gnd", "gnd"), ("in", "in"), ("out", "mid")]),
                    Vec::new(),
                ),
            ),
            (
                "i2".to_string(),
                inst(
                    2,
                    pairs(&[("vdd", "vdd"), ("gnd", "gnd"), ("in", "mid"), ("out", "out")]),
                    Vec::new(),
                ),
            ),
        ],
        false,
    );
    let vsrc_code = CodeArch {
        reference: "v{{name}} {{port.p}} {{port.n}} dc={{generic.dc}}".to_string(),
        definition: Definition::Primitive,
    };
    let mut vsrc_table = CodeDialectArch::new();
    vsrc_table.dialects.push(("spice".to_string(), vsrc_code));
    let vsrc = Entity {
        name: "vsrc".to_string(),
        symbol: Symbol,
        generic: vec!["dc".to_string()],
        port: vec!["p".to_string(), "n".to_string()],
        archs: vec![("rtl".to_string(), Arch::Code(vsrc_table))],
    };
    let tb = block(
        "tb",
        vec![
            (
                "b1".to_string(),
                inst(
                    3,
                    pairs(&[("vdd", "vdd"), ("gnd", "0"), ("in", "in"), ("out", "out")]),
                    Vec::new(),
                ),
            ),
            ("vdd1".to_string(), inst(4, pairs(&[("p", "vdd"), ("n", "0")]), pairs(&[("dc", "5")]))),
            ("vin".to_string(), inst(4, pairs(&[("p", "in"), ("n", "0")]), pairs(&[("dc", "1")]))),
        ],
        true,
    );
    let design = Design { entities: vec![pmos, nmos, inv, buf, vsrc, tb] };
    let mut conf = Configuration {
        sim: Simulator::Ngspice(Ngspice),
        ent: 5,
        arch: None,
        for_inst: Vec::new(),
        all: Vec::new(),
    };
    let defs = conf.definition(&design).unwrap();
    // a toplevel schematic produces a single self-contained definition
    assert_eq!(defs.len(), 1);
    let text = match &defs[0] {
        Definition::Code(t) => t.clone(),
        _ => panic!("the toplevel definition must be text"),
    };
    let expected = "* tb\n\
        .model PMOS\n\
        .model NMOS\n\
        .subckt inv vdd gnd in out\n\
        mmp out in vdd vdd PMOS W=2 L=1\n\
        mmn out in gnd gnd NMOS W=1 L=1\n\
        .ends inv\n\
        .subckt buf vdd gnd in out\n\
        xi1 vdd gnd in mid inv\n\
        xi2 vdd gnd mid out inv\n\
        .ends buf\n\
        \n\
        xb1 vdd 0 in out buf\n\
        vvdd1 vdd 0 dc=5\n\
        vvin in 0 dc=1\n\
        .end\n";
    assert_eq!(text, expected);
    // each shared definition appears exactly once, before its first use
    assert_eq!(text.matches(".model PMOS").count(), 1);
    assert_eq!(text.matches(".model NMOS").count(), 1);
    assert_eq!(text.matches(".subckt inv").count(), 1);
    assert_eq!(text.matches(".subckt buf").count(), 1);
    assert!(text.find(".subckt inv").unwrap() < text.find("xi1").unwrap());
    assert!(text.find(".subckt buf").unwrap() < text.find("xb1").unwrap());
}

#[test]
fn memoized_children_after_synthesis() {
    // synthesizing the same schematic twice resolves each instance name
    // to the same cached child configuration and allocates nothing new
    let pmos = mos("pmos", "PMOS");
    let top = block(
        "one",
        vec![(
            "m1".to_string(),
            inst(
                0,
                pairs(&[("g", "a"), ("d", "b"), ("s", "c"), ("b", "c")]),
                pairs(&[("w", "1"), ("l", "1")]),
            ),
        )],
        true,
    );
    let design = Design { entities: vec![pmos, top] };
    let mut conf = Configuration {
        sim: Simulator::Ngspice(Ngspice),
        ent: 1,
        arch: None,
        for_inst: Vec::new(),
        all: Vec::new(),
    };
    let first = conf.definition(&design).unwrap();
    assert_eq!(conf.for_inst.len(), 1);
    assert_eq!(conf.for_inst[0].0, "m1");
    let second = conf.definition(&design).unwrap();
    assert_eq!(conf.for_inst.len(), 1);
    let (a, b) = match (&first[0], &second[0]) {
        (Definition::Code(a), Definition::Code(b)) => (a.clone(), b.clone()),
        _ => panic!("expected text definitions"),
    };
    assert_eq!(a, b);
}
