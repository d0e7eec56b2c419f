use hack_toolchain::assembler::{Assembler, CInstruction, Instruction, SyntaxError};

fn assemble(src: &str) -> Result<String, SyntaxError> {
    Assembler::new(src).assemble()
}

#[test]
fn adds_two_constants() {
    assert_eq!(
        assemble("@5\nD=A\n@3\nD=D+A\n").unwrap(),
        "0000000000000101\n1110110000010000\n0000000000000011\n1110000010010000\n"
    );
}

#[test]
fn variables_and_labels() {
    assert_eq!(
        assemble("@i\nM=1\n(LOOP)\n@LOOP\n0;JMP\n").unwrap(),
        "0000000000010000\n1110111111001000\n0000000000000010\n1110101010000111\n"
    );
}

#[test]
fn every_line_is_sixteen_bits() {
    let out = assemble("// sum\n@R0\nD=M // load\n@x\nM=D\n@KBD\nD;JGT\n(END)\n@END\n0;JMP\n").unwrap();
    assert_eq!(out.lines().count(), 8);
    for line in out.lines() {
        assert_eq!(line.len(), 16);
        assert!(line.chars().all(|c| c == '0' || c == '1'));
    }
    assert!(out.ends_with('\n'));
}

#[test]
fn numeric_address_is_big_endian_binary() {
    for n in [0usize, 1, 2, 255, 1024, 16384, 32767] {
        let out = assemble(&format!("@{}\n", n)).unwrap();
        assert_eq!(usize::from_str_radix(out.trim_end(), 2).unwrap(), n);
        assert_eq!(out, format!("{:016b}\n", n));
    }
}

#[test]
fn resolved_program_assembles_the_same() {
    let first = assemble("@i\nM=1\n(LOOP)\n@i\nM=M+1\n@LOOP\n0;JMP\n").unwrap();
    let resolved = assemble("@16\nM=1\n@16\nM=M+1\n@2\n0;JMP\n").unwrap();
    assert_eq!(first, resolved);
    assert_eq!(assemble("@16\nM=1\n@16\nM=M+1\n@2\n0;JMP\n").unwrap(), resolved);
}

#[test]
fn label_wins_over_variable() {
    let out = assemble("@LOOP\n0;JMP\n@x\nM=0\n(LOOP)\n@LOOP\n").unwrap();
    let lines: Vec<&str> = out.lines().collect();
    assert_eq!(lines[0], "0000000000000100");
    assert_eq!(lines[2], "0000000000010000");
    assert_eq!(lines[4], "0000000000000100");
}

#[test]
fn predefined_symbols() {
    let out = assemble("@SCREEN\n@KBD\n@R15\n@THAT\n").unwrap();
    assert_eq!(out, "0100000000000000\n0110000000000000\n0000000000001111\n0000000000000100\n");
}

#[test]
fn distinct_variables_get_consecutive_addresses() {
    let out = assemble("@a\n@b\n@a\n@c\n").unwrap();
    assert_eq!(out, "0000000000010000\n0000000000010001\n0000000000010000\n0000000000010010\n");
}

#[test]
fn blanks_and_comments_are_ignored() {
    let out = assemble("  // header\n\n  D = D + A ; JGT  // add\r\n").unwrap();
    assert_eq!(out, "1110000010010001\n");
}

#[test]
fn all_destinations_and_jumps() {
    let out = assemble("AMD=M-1;JMP\nAM=!M;JLE\nMD=D|M;JNE\n").unwrap();
    assert_eq!(out, "1111110010111111\n1111110001101110\n1111010101011101\n");
}

#[test]
fn syntax_error_names_the_line() {
    assert_eq!(assemble("@1\n\n// c\nfoo bar\n"), Err(SyntaxError { line: 4 }));
}

#[test]
fn unknown_computation_is_an_error() {
    assert_eq!(assemble("@1\nD=D*A\n"), Err(SyntaxError { line: 2 }));
    assert_eq!(assemble("DM=A\n"), Err(SyntaxError { line: 1 }));
    assert_eq!(assemble("D;JXX\n"), Err(SyntaxError { line: 1 }));
}

#[test]
fn address_out_of_range_is_an_error() {
    assert_eq!(assemble("@32768\n"), Err(SyntaxError { line: 1 }));
    assert_eq!(assemble("@99999999999999999999999\n"), Err(SyntaxError { line: 1 }));
}

#[test]
fn empty_input_gives_empty_output() {
    assert_eq!(assemble("").unwrap(), "");
    assert_eq!(assemble("\n// only a comment\n").unwrap(), "");
}

#[test]
fn encodes_single_instructions() {
    let assembler = Assembler::new("");
    assert_eq!(
        assembler.get_machine_language_instruction(Instruction::A { address: 21 }),
        Some("0000000000010101".to_string())
    );
    assert_eq!(assembler.get_machine_language_instruction(Instruction::A { address: 40000 }), None);
    let c = CInstruction { dest: "D".to_string(), comp: "D+A".to_string(), jmp: String::new() };
    assert_eq!(
        assembler.get_machine_language_instruction(Instruction::C { instruction: c }),
        Some("1110000010010000".to_string())
    );
    let bad = CInstruction { dest: String::new(), comp: "X".to_string(), jmp: String::new() };
    assert_eq!(assembler.get_machine_language_instruction(Instruction::C { instruction: bad }), None);
}
