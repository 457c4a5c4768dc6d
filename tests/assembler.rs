use assembler::text::chars_of;
use assembler::{assemble, AsmError, AsmParser, EncodeError, Instruction};

fn cv(s: &str) -> Vec<char> {
    s.chars().collect()
}

fn word(src: &str) -> String {
    assemble(src).expect("assembles")
}

#[test]
fn two_instructions_scenario() {
    assert_eq!(word("mov r0, r1\nadd r0, #5\n"), "0:0x201\t\n1:0x7\t0x5\t\n");
}

#[test]
fn unknown_mnemonic_scenario() {
    let r = assemble("foo r0, r1\n");
    assert_eq!(
        r,
        Err(AsmError::Encoding(EncodeError::UnknownOpcode { line: 1, opcode: cv("foo") }))
    );
}

#[test]
fn unknown_mnemonic_after_good_line_gives_no_output() {
    let r = assemble("mov r0, r1\nfoo r0, r1\n");
    assert_eq!(
        r,
        Err(AsmError::Encoding(EncodeError::UnknownOpcode { line: 2, opcode: cv("foo") }))
    );
}

#[test]
fn macro_round_trip() {
    let src = "@macro add(a,b)\nmov r0, a\nadd r0, b\n}\n@add(r1,#5)\n";
    assert_eq!(word(src), "0:0x201\t\n0:0x7\t0x5\t\n");
}

#[test]
fn macro_body_is_not_emitted_at_definition() {
    assert_eq!(word("@macro m(a)\npush a\n}\n"), "");
}

#[test]
fn macro_arity_mismatch() {
    let src = "@macro m(a)\nmov r0, a\n}\n@m(r1, r2)\n";
    assert_eq!(
        assemble(src),
        Err(AsmError::MacroArityMismatch { line: 4, name: cv("m"), definition_line: 1 })
    );
}

#[test]
fn macro_not_found() {
    assert_eq!(
        assemble("@nope(r0)\n"),
        Err(AsmError::MacroNotFound { line: 1, name: cv("nope") })
    );
}

#[test]
fn macro_error_in_expansion() {
    let src = "@macro m(a)\nfoo a\n}\n@m(r0)\n";
    assert_eq!(
        assemble(src),
        Err(AsmError::InMacro {
            line: 4,
            name: cv("m"),
            cause: EncodeError::UnknownOpcode { line: 2, opcode: cv("foo") },
        })
    );
}

#[test]
fn macro_redefinition_overwrites() {
    let src = "@macro m(a)\npush a\n}\n@macro m(a)\npop a\n}\n@m(r1)\n";
    assert_eq!(word(src), "0:0x311\t\n");
}

#[test]
fn stray_closing_brace() {
    assert_eq!(assemble("}\n"), Err(AsmError::StructuralError { line: 1 }));
}

#[test]
fn malformed_macro_header() {
    assert_eq!(assemble("@macro bad\n"), Err(AsmError::StructuralError { line: 1 }));
    assert_eq!(assemble("@macro(a)\n"), Err(AsmError::StructuralError { line: 1 }));
}

#[test]
fn malformed_macro_call() {
    assert_eq!(assemble("mov r0, r1\n@m)(\n"), Err(AsmError::StructuralError { line: 2 }));
}

#[test]
fn label_marks_following_instruction() {
    assert_eq!(word("loop:\nmov r0, r1\n"), "(loop): 0\n0:0x201\t\n");
    assert_eq!(
        word("mov r0, r1\nloop:\nmov r1, r0\n"),
        "0:0x201\t\n(loop): 1\n1:0x208\t\n"
    );
}

#[test]
fn register_aliases() {
    assert_eq!(Instruction::reg_to_int(&cv("r0")), 0);
    assert_eq!(Instruction::reg_to_int(&cv("r1")), 1);
    assert_eq!(Instruction::reg_to_int(&cv("r2")), 2);
    assert_eq!(Instruction::reg_to_int(&cv("r3")), 3);
    assert_eq!(Instruction::reg_to_int(&cv("r4")), 7);
    assert_eq!(Instruction::reg_to_int(&cv("#5")), 7);
}

#[test]
fn immediate_literals() {
    assert_eq!(word("mov r0, #-1\n"), "0:0x207\t0xffff\t\n");
    assert_eq!(word("sub r2, #32767\n"), "0:0x37\t0x7fff\t\n");
    assert_eq!(word("push #-32768\n"), "0:0x307\t0x8000\t\n");
    assert_eq!(word("incr #+3\n"), "0:0x1c7\t0x3\t\n");
}

#[test]
fn invalid_operands() {
    let bad = |src: &str, line: usize, operand: &str| {
        assert_eq!(
            assemble(src),
            Err(AsmError::Encoding(EncodeError::InvalidOperand { line, operand: cv(operand) }))
        );
    };
    bad("mov r0, #x\n", 1, "#x");
    bad("mov r0, 5\n", 1, "5");
    bad("add r0, #32768\n", 1, "#32768");
    bad("mov #1, r0\n", 1, "#1");
    bad("load r0, [x]\n", 1, "[x]");
    bad("load r0, 12\n", 1, "12");
    bad("j -1\n", 1, "-1");
    bad("j 65536\n", 1, "65536");
    bad("j r0\n", 1, "r0");
}

#[test]
fn ram_moves_and_jumps() {
    assert_eq!(word("str r1, [12]\n"), "0:0x28f\t0xc\t\n");
    assert_eq!(word("load r0, r1\n"), "0:0x2a1\t\n");
    assert_eq!(word("j 42\n"), "0:0x800\t0x2a\t\n");
    assert_eq!(word("j 65535\n"), "0:0x800\t0xffff\t\n");
}

#[test]
fn arity_errors() {
    assert_eq!(
        assemble("mov r0\n"),
        Err(AsmError::Encoding(EncodeError::ArityError { line: 1, opcode: cv("mov") }))
    );
    assert_eq!(
        assemble("push r0, r1\n"),
        Err(AsmError::Encoding(EncodeError::ArityError { line: 1, opcode: cv("push") }))
    );
}

#[test]
fn every_mnemonic_register_form() {
    let cases = [
        ("mov r0, r1", 0x201u16),
        ("str r0, r1", 0x281),
        ("load r0, r1", 0x2a1),
        ("incr r1", 0x1c1),
        ("decr r1", 0x1c9),
        ("not r0", 0x1d0),
        ("add r1, r2", 0x0a),
        ("sub r1, r2", 0x2a),
        ("mul r1, r2", 0x4a),
        ("and r1, r2", 0x6a),
        ("or r1, r2", 0x8a),
        ("xor r1, r2", 0xaa),
        ("cmp r1, r2", 0xca),
        ("push r2", 0x302),
        ("pop r3", 0x313),
    ];
    for (src, w) in cases.iter() {
        let ins = Instruction::init(1, 0, &cv(src));
        assert_eq!(ins.repr(), Ok(vec![*w]), "{}", src);
        assert_eq!(w & 0x7000, 0);
    }
}

#[test]
fn suffix_flags() {
    assert_eq!(word("addz r0, r1\n"), "0:0x2001\t\n");
    assert_eq!(word("addeq r0, r1\n"), "0:0x2001\t\n");
    assert_eq!(word("addzeq r0, r1\n"), "0:0x2001\t\n");
    assert_eq!(word("adds r0, r1\n"), "0:0x1001\t\n");
    assert_eq!(word("addn r0, r1\n"), "0:0x4001\t\n");
    assert_eq!(word("addsnz r0, r1\n"), "0:0x7001\t\n");
    assert_eq!(word("jlt 3\n"), "0:0x4800\t0x3\t\n");
    let ins = Instruction::init(3, 9, &cv("subs r0, r1"));
    assert_eq!(ins.opcode, cv("sub"));
    assert!(ins.update && !ins.zero && !ins.negative);
    assert_eq!(ins.line, 4);
    assert_eq!(ins.binary_line, 9);
    assert_eq!(ins.args, vec![cv("r0"), cv("r1")]);
}

#[test]
fn comments() {
    let src = "mov r0, r1 ; note\n;= block\nadd r0, r1\n=; mov r1, r0\n";
    assert_eq!(word(src), "0:0x201\t\n1:0x208\t\n");
    assert_eq!(word("  ; only a comment\n\n   \n"), "");
}

#[test]
fn empty_source() {
    assert_eq!(word(""), "");
}

#[test]
fn parser_keeps_state_across_calls() {
    let mut p = AsmParser::new();
    assert_eq!(p.parse("@macro m(a)\npush a\n}\n"), Ok(String::new()));
    assert_eq!(p.parse("@m(r0)\nmov r0, r1\n"), Ok("0:0x300\t\n0:0x201\t\n".to_string()));
}

#[test]
fn parse_line_emits_line_text() {
    let mut p = AsmParser::new();
    assert_eq!(p.parse_line(1, &cv("mov r0, r1")), Ok(cv("0:0x201\t\n")));
    assert_eq!(p.parse_line(2, &cv("x:")), Ok(cv("(x): 1\n")));
}

#[test]
fn chars_round_trip() {
    assert_eq!(chars_of("ab c"), vec!['a', 'b', ' ', 'c']);
}

#[test]
fn large_hex_word() {
    assert_eq!(word("mov r3, #-4096\n"), "0:0x21f\t0xf000\t\n");
}

#[test]
fn first_operand_must_be_register() {
    let bad = |src: &str, operand: &str| {
        assert_eq!(
            assemble(src),
            Err(AsmError::Encoding(EncodeError::InvalidOperand { line: 1, operand: cv(operand) }))
        );
    };
    bad("add x, r1\n", "x");
    bad("cmp #2, r0\n", "#2");
    bad("str #1, [2]\n", "#1");
    bad("load x, r0\n", "x");
}

#[test]
fn state_survives_a_failed_line() {
    let mut p = AsmParser::new();
    assert_eq!(p.parse_line(0, &cv("@macro m(a)")), Ok(vec![]));
    assert_eq!(p.parse_line(1, &cv("push a")), Ok(vec![]));
    assert_eq!(p.parse_line(2, &cv("}")), Ok(vec![]));
    assert_eq!(p.parse_line(3, &cv("}")), Err(AsmError::StructuralError { line: 4 }));
    assert_eq!(
        p.parse_line(4, &cv("@m(r1, r2)")),
        Err(AsmError::MacroArityMismatch { line: 5, name: cv("m"), definition_line: 1 })
    );
    assert_eq!(
        p.parse_line(5, &cv("foo r0")),
        Err(AsmError::Encoding(EncodeError::UnknownOpcode { line: 6, opcode: cv("foo") }))
    );
    assert_eq!(p.parse_line(6, &cv("@m(r1)")), Ok(cv("0:0x301\t\n")));
    assert_eq!(p.parse_line(7, &cv("@m(r1)")), Ok(cv("0:0x301\t\n")));
    assert_eq!(p.parse_line(8, &cv("mov r0, r1")), Ok(cv("1:0x201\t\n")));
}

#[test]
fn substitution_is_simultaneous() {
    let src = "@macro m(a,b)\nmov r0, a\n}\n@m(b,#3)\n";
    assert_eq!(
        assemble(src),
        Err(AsmError::InMacro {
            line: 4,
            name: cv("m"),
            cause: EncodeError::InvalidOperand { line: 2, operand: cv("b") },
        })
    );
}

#[test]
fn label_across_blank_lines() {
    assert_eq!(word("mov r0, r1\nend:\n\n  \n; note\npop r0\n"), "0:0x201\t\n(end): 1\n1:0x310\t\n");
}

#[test]
fn init_records_one_based_line() {
    let ins = Instruction::init(4, 7, &cv("add r0, #5"));
    assert_eq!(ins.opcode, cv("add"));
    assert!(!ins.negative && !ins.zero && !ins.update);
    assert_eq!(ins.args, vec![cv("r0"), cv("#5")]);
    assert_eq!(ins.line, 5);
    assert_eq!(ins.binary_line, 7);
    assert_eq!(Instruction::init(0, 0, &cv("j 10")).args, vec![cv("10")]);
}

#[test]
fn failed_instruction_moves_counter() {
    let mut p = AsmParser::new();
    assert_eq!(
        p.parse_line(0, &cv("mov r0, x")),
        Err(AsmError::Encoding(EncodeError::InvalidOperand { line: 1, operand: cv("x") }))
    );
    assert_eq!(p.parse_line(1, &cv("mov r0, r1")), Ok(cv("1:0x201\t\n")));
}
