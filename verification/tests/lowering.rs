//! The two lowering passes: label resolution, per-mnemonic emission, fault
//! cases, and running an assembled program end to end.

use munin::{Assembler, Compiler, Device, MachineError};

fn lines(src: &[&str]) -> Vec<String> {
    src.iter().map(|s| s.to_string()).collect()
}

fn as_strs(v: &[String]) -> Vec<&str> {
    v.iter().map(|s| s.as_str()).collect()
}

#[test]
fn assembler_resolves_forward_and_backward_jumps_alike() {
    let mut a = Assembler::new();
    a.load_lines(lines(&[
        "set v0 to 3",
        "go-to finish",
        "label back",
        "go-to back",
        "label finish",
    ]));
    let out = a.compile_program().unwrap();
    assert_eq!(
        as_strs(&out),
        vec!["set v0 3", "jmp 4", "non", "jmp 2", "non", "end"]
    );
}

#[test]
fn assembler_keeps_the_last_declaration_of_a_name() {
    let mut a = Assembler::new();
    a.load_lines(lines(&["label x", "go-to x", "label x"]));
    let out = a.compile_program().unwrap();
    assert_eq!(as_strs(&out), vec!["non", "jmp 2", "non", "end"]);
}

#[test]
fn assembler_emits_every_mnemonic() {
    let mut a = Assembler::new();
    a.load_lines(lines(&[
        "set v0 to 3",
        "set v0 to length-of v1",
        "set v0 to bit 3 of v1",
        "int-add v0 to v1",
        "int-subtract v1 from v0",
        "bit-add b0 to b1",
        "bit-add b0 to b1 with-carry",
        "bit-subtract b0 from b1",
        "bit-subtract b0 from b1 with-borrow",
        "shift v0 left by 2",
        "shift v0 right by 1",
        "compare v0 to v1",
        "clear-flags",
        "skip-next-if equal",
        "skip-next-if",
        "",
    ]));
    let out = a.compile_program().unwrap();
    assert_eq!(
        as_strs(&out),
        vec![
            "set v0 3",
            "stl v0 v1",
            "stnb v0 v1 3",
            "iadd v1 v0",
            "isub v0 v1",
            "badd b1 b0",
            "badc b1 b0",
            "bsub b1 b0",
            "bsbu b1 b0",
            "bsl v0 2",
            "bsr v0 1",
            "cmp v0 v1",
            "clf",
            "jon e",
            "jon ",
            "non",
            "end",
        ]
    );
}

#[test]
fn assembler_maps_every_flag_name() {
    let cases = [
        ("equal", "e"),
        ("not-equal", "ne"),
        ("greater", "g"),
        ("greater-or-equal", "ge"),
        ("less", "l"),
        ("less-or-equal", "le"),
        ("carry", "c"),
        ("no-carry", "nc"),
        ("borrow", "b"),
        ("no-borrow", "nb"),
    ];
    for (name, code) in cases {
        let mut a = Assembler::new();
        a.load_lines(lines(&[&format!("skip-next-if {}", name)]));
        let out = a.compile_program().unwrap();
        assert_eq!(out[0].as_str(), format!("jon {}", code));
    }
}

#[test]
fn assembler_rejects_bad_lines() {
    let mut a = Assembler::new();
    a.load_lines(lines(&["frobnicate v0"]));
    assert_eq!(a.compile_program(), Err(MachineError::Syntax));

    let mut b = Assembler::new();
    b.load_lines(lines(&["go-to nowhere"]));
    assert_eq!(b.compile_program(), Err(MachineError::UnresolvedLabel));

    let mut c = Assembler::new();
    c.load_lines(lines(&["skip-next-if sideways"]));
    assert_eq!(c.compile_program(), Err(MachineError::Domain));

    let mut d = Assembler::new();
    d.load_lines(lines(&["shift v0"]));
    assert_eq!(d.compile_program(), Err(MachineError::Syntax));
}

#[test]
fn assembler_skips_comment_lines_on_load() {
    let mut a = Assembler::new();
    a.load_lines(lines(&["; heading", "set v0 to 1", "; note", "label x", "go-to x"]));
    assert_eq!(a.program_lines.len(), 3);
    let out = a.compile_program().unwrap();
    assert_eq!(as_strs(&out), vec!["set v0 1", "non", "jmp 1", "end"]);
}

#[test]
fn assembled_program_runs_on_the_device() {
    let mut a = Assembler::new();
    a.load_lines(lines(&[
        "set v0 to i0",
        "set v1 to i1",
        "int-add v0 to v1",
        "label done",
    ]));
    let out = a.compile_program().unwrap();
    let mut d = Device::new();
    assert_eq!(d.load_input_variable("i0", 2), Ok(()));
    assert_eq!(d.load_input_variable("i1", 3), Ok(()));
    d.load_program(out);
    assert_eq!(d.execute_program(None, 10_000), Ok(()));
    assert_eq!(d.get_source_value("v1"), Ok(5));
}

#[test]
fn compiler_emits_the_intermediate_dialect() {
    let mut c = Compiler::new();
    c.load_lines(lines(&[
        "set v0 to 3",
        "set v0 to length-of v1",
        "set v0 to bit 3 of v1",
        "int-add v0 to v1",
        "int-subtract v1 from v0",
        "bit-add b0 to b1",
        "bit-add b0 to b1 with-carry",
        "bit-subtract b0 from b1",
        "shift v0 left by 2",
        "compare v0 to v1",
        "skip-next-if borrow",
        "",
    ]));
    let out = c.compile_program().unwrap();
    assert_eq!(
        as_strs(&out),
        vec![
            "set v0 3",
            "set-to-length-of v0 v1",
            "set-to-nth-bit v0 v1 3",
            "int-add v1 v0",
            "int-subtract v0 v1",
            "bit-add b1 b0",
            "bit-add-with-carry b1 b0",
            "bit-subtract b1 b0",
            "bit-shift-left v0 2",
            "compare v0 v1",
            "jump-over-next-if borrow",
            "do-nothing",
            "end",
        ]
    );
}

#[test]
fn compiler_resolves_jump_points() {
    let mut c = Compiler::new();
    c.load_lines(lines(&[
        "go-to finish",
        "declare-jump-point back",
        "go-to back",
        "declare-jump-point finish",
    ]));
    let out = c.compile_program().unwrap();
    assert_eq!(
        as_strs(&out),
        vec!["jump-to 3", "do-nothing", "jump-to 1", "do-nothing", "end"]
    );
}

#[test]
fn compiler_has_no_clear_flags_form() {
    let mut c = Compiler::new();
    c.load_lines(lines(&["clear-flags"]));
    assert_eq!(c.compile_program(), Err(MachineError::Syntax));
}

#[test]
fn compiler_rejects_unknown_jump_points() {
    let mut c = Compiler::new();
    c.load_lines(lines(&["go-to nowhere"]));
    assert_eq!(c.compile_program(), Err(MachineError::UnresolvedLabel));
}
