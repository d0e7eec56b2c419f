use hack_toolchain::assembler::Assembler;
use hack_toolchain::commands::{
    arithmetic_command, bootstrap, branching_command, funcall, fundecl, funret, pop_command,
    push_command, segment_mapping, VmError,
};
use hack_toolchain::generate_asm::{translate, translate_directory, VmFile};
use hack_toolchain::text::decimal;
use hack_toolchain::tokenizer::{partition_instr, remove_comments};

fn lines(src: &str) -> Vec<String> {
    remove_comments(src.lines().map(|l| l.to_string()).collect())
}

/// Runs Hack machine code for a number of steps on the given memory.
fn run(hack: &str, ram: &mut Vec<i16>, steps: usize) {
    let rom: Vec<u16> = hack.lines().map(|l| u16::from_str_radix(l, 2).unwrap()).collect();
    let (mut a, mut d, mut pc) = (0i16, 0i16, 0usize);
    for _ in 0..steps {
        if pc >= rom.len() {
            break;
        }
        let ins = rom[pc];
        if ins & 0x8000 == 0 {
            a = ins as i16;
            pc += 1;
            continue;
        }
        let addr = a as u16 as usize;
        let y = if (ins >> 12) & 1 == 1 { ram[addr] } else { a };
        let c = (ins >> 6) & 0x3f;
        let mut x = d;
        let mut yy = y;
        if c & 0x20 != 0 {
            x = 0;
        }
        if c & 0x10 != 0 {
            x = !x;
        }
        if c & 0x08 != 0 {
            yy = 0;
        }
        if c & 0x04 != 0 {
            yy = !yy;
        }
        let mut out = if c & 0x02 != 0 { x.wrapping_add(yy) } else { x & yy };
        if c & 0x01 != 0 {
            out = !out;
        }
        let dest = (ins >> 3) & 7;
        let jmp = ins & 7;
        if dest & 1 != 0 {
            ram[addr] = out;
        }
        if dest & 2 != 0 {
            d = out;
        }
        if dest & 4 != 0 {
            a = out;
        }
        let jump = (jmp & 4 != 0 && out < 0) || (jmp & 2 != 0 && out == 0) || (jmp & 1 != 0 && out > 0);
        pc = if jump { addr } else { pc + 1 };
    }
}

fn translate_and_run(src: &str, ram: &mut Vec<i16>) -> String {
    let code: String = translate(lines(src), String::new(), false).unwrap().concat();
    let hack = Assembler::new(&code).assemble().unwrap();
    run(&hack, ram, 20000);
    code
}

fn memory() -> Vec<i16> {
    let mut ram = vec![0i16; 32768];
    ram[0] = 256;
    ram
}

#[test]
fn push_push_add() {
    let mut ram = memory();
    translate_and_run("push constant 7\npush constant 8\nadd\n", &mut ram);
    assert_eq!(ram[256], 15);
    assert_eq!(ram[0], 257);
}

#[test]
fn pop_to_local() {
    let mut ram = memory();
    ram[1] = 300;
    translate_and_run("push constant 10\npop local 0\n", &mut ram);
    assert_eq!(ram[300], 10);
    assert_eq!(ram[0], 256);
}

#[test]
fn two_equality_tests() {
    let mut ram = memory();
    let code = translate_and_run(
        "push constant 5\npush constant 5\neq\npush constant 5\npush constant 6\neq\n",
        &mut ram,
    );
    assert_eq!(ram[256], -1);
    assert_eq!(ram[257], 0);
    assert_eq!(ram[0], 258);
    assert!(code.contains("(ISEQUAL0)"));
    assert!(code.contains("(ISEQUAL1)"));
    assert!(code.contains("(EQEND0)"));
    assert!(code.contains("(EQEND1)"));
}

#[test]
fn comparisons_compute_booleans() {
    let mut ram = memory();
    translate_and_run(
        "push constant 9\npush constant 3\ngt\npush constant 3\npush constant 9\ngt\npush constant 3\npush constant 9\nlt\npush constant 4\npush constant 4\nlt\n",
        &mut ram,
    );
    assert_eq!(&ram[256..260], &[-1, 0, -1, 0]);
}

#[test]
fn comparison_labels_are_all_distinct() {
    let code: String = translate(lines("eq\ngt\nlt\neq\ngt\nlt\neq\n"), String::new(), false)
        .unwrap()
        .concat();
    let labels: Vec<&str> = code.lines().filter(|l| l.starts_with('(')).collect();
    assert_eq!(labels.len(), 7 * 3 + 1);
    let mut sorted = labels.clone();
    sorted.sort();
    sorted.dedup();
    assert_eq!(sorted.len(), labels.len());
}

#[test]
fn arithmetic_and_logic() {
    let mut ram = memory();
    translate_and_run(
        "push constant 10\npush constant 4\nsub\npush constant 12\npush constant 10\nand\npush constant 12\npush constant 10\nor\npush constant 5\nneg\npush constant 0\nnot\n",
        &mut ram,
    );
    assert_eq!(&ram[256..261], &[6, 8, 14, -5, -1]);
}

#[test]
fn segments_round_trip() {
    let mut ram = memory();
    ram[1] = 300;
    ram[2] = 400;
    translate_and_run(
        "push constant 3030\npop pointer 0\npush constant 3040\npop pointer 1\npush constant 32\npop this 2\npush constant 46\npop that 6\npush constant 7\npop temp 6\npush constant 8\npop static 3\npush constant 11\npop argument 1\npush pointer 0\npush pointer 1\nadd\npush this 2\npush that 6\nadd\npush temp 6\npush static 3\nadd\npush argument 1\n",
        &mut ram,
    );
    assert_eq!(ram[3], 3030);
    assert_eq!(ram[4], 3040);
    assert_eq!(ram[3032], 32);
    assert_eq!(ram[3046], 46);
    assert_eq!(ram[11], 7);
    assert_eq!(ram[401], 11);
    assert_eq!(&ram[256..260], &[6070, 78, 15, 11]);
}

#[test]
fn branching_loop_sums() {
    let mut ram = memory();
    ram[1] = 300;
    ram[2] = 400;
    ram[400] = 4;
    translate_and_run(
        "push constant 0\npop local 0\nlabel LOOP\npush argument 0\npush local 0\nadd\npop local 0\npush argument 0\npush constant 1\nsub\npop argument 0\npush argument 0\nif-goto LOOP\npush local 0\n",
        &mut ram,
    );
    assert_eq!(ram[256], 10);
}

#[test]
fn unit_ends_with_the_trailer() {
    let out = translate(lines("push constant 1\n"), String::new(), false).unwrap();
    assert_eq!(out.last().unwrap(), "(END)\n@END\n0;JMP\n");
    let all = out.concat();
    assert_eq!(all.matches("(END)").count(), 1);
    assert!(all.ends_with("@END\n0;JMP\n"));
    let empty = translate(Vec::new(), String::new(), false).unwrap();
    assert_eq!(empty, vec!["(END)\n@END\n0;JMP\n".to_string()]);
}

#[test]
fn directory_starts_with_bootstrap() {
    let files = vec![
        VmFile {
            name: "Main".to_string(),
            lines: lines("function Main.double 0\npush argument 0\npush argument 0\nadd\nreturn\n"),
        },
        VmFile {
            name: "Sys".to_string(),
            lines: lines("function Sys.init 0\npush constant 3\ncall Main.double 1\npop temp 0\nlabel HALT\ngoto HALT\n"),
        },
    ];
    let out = translate_directory(&files).unwrap();
    let code = out.concat();
    assert!(code.starts_with("@256\nD=A\n@SP\nM=D\n"));
    assert_eq!(out[0], bootstrap());
    assert!(out[0].contains("@Sys.init\n0;JMP\n"));
    assert!(code.ends_with("(END)\n@END\n0;JMP\n"));
    let hack = Assembler::new(&code).assemble().unwrap();
    let mut ram = vec![0i16; 32768];
    run(&hack, &mut ram, 20000);
    assert_eq!(ram[5], 6);
}

#[test]
fn call_counters_run_across_files() {
    let files = vec![
        VmFile { name: "A".to_string(), lines: lines("call f 0\neq\n") },
        VmFile { name: "B".to_string(), lines: lines("call f 0\neq\n") },
    ];
    let code = translate_directory(&files).unwrap().concat();
    assert!(code.contains("(Sys.init_RETURN_0)"));
    assert!(code.contains("(f_RETURN_1)"));
    assert!(code.contains("(f_RETURN_2)"));
    assert!(code.contains("(ISEQUAL0)"));
    assert!(code.contains("(ISEQUAL1)"));
}

#[test]
fn static_names_use_the_file() {
    let out = push_command("static".to_string(), "3".to_string(), "Main".to_string()).unwrap();
    assert!(out.starts_with("@Main.3\n"));
    let out = pop_command("static".to_string(), "0".to_string(), String::new()).unwrap();
    assert!(out.contains("@.0\n"));
}

#[test]
fn segment_errors() {
    assert_eq!(segment_mapping("local".to_string()), Ok("LCL".to_string()));
    assert_eq!(segment_mapping("that".to_string()), Ok("THAT".to_string()));
    assert_eq!(segment_mapping("temp".to_string()), Err(VmError::InvalidSegment));
    assert_eq!(
        push_command("heap".to_string(), "1".to_string(), String::new()),
        Err(VmError::InvalidSegment)
    );
    assert_eq!(
        pop_command("constant".to_string(), "1".to_string(), String::new()),
        Err(VmError::InvalidSegment)
    );
    assert_eq!(
        push_command("temp".to_string(), "8".to_string(), String::new()),
        Err(VmError::InvalidIndex)
    );
    assert_eq!(
        pop_command("pointer".to_string(), "2".to_string(), String::new()),
        Err(VmError::InvalidIndex)
    );
    assert_eq!(
        push_command("local".to_string(), "x".to_string(), String::new()),
        Err(VmError::InvalidIndex)
    );
    assert_eq!(
        push_command("constant".to_string(), "32768".to_string(), String::new()),
        Err(VmError::InvalidIndex)
    );
}

#[test]
fn command_errors() {
    assert_eq!(arithmetic_command("mul".to_string(), 0), Err(VmError::UnknownCommand));
    assert_eq!(
        branching_command("jump".to_string(), "L".to_string()),
        Err(VmError::UnknownCommand)
    );
    assert_eq!(fundecl("f".to_string(), "-1".to_string()), Err(VmError::InvalidIndex));
    assert_eq!(funcall("f".to_string(), "".to_string(), 1), Err(VmError::InvalidIndex));
    assert_eq!(
        translate(lines("push constant 1 2\n"), String::new(), false),
        Err(VmError::UnknownCommand)
    );
    assert_eq!(translate(lines("jump L\n"), String::new(), false), Err(VmError::UnknownCommand));
}

#[test]
fn exact_blocks() {
    assert_eq!(
        push_command("constant".to_string(), "7".to_string(), String::new()).unwrap(),
        "@7\nD=A\n@SP\nA=M\nM=D\n@SP\nM=M+1\n"
    );
    assert_eq!(arithmetic_command("add".to_string(), 0).unwrap(), "@SP\nAM=M-1\nD=M\nA=A-1\nM=D+M\n");
    assert_eq!(branching_command("label".to_string(), "X".to_string()).unwrap(), "(X)\n");
    assert_eq!(branching_command("goto".to_string(), "X".to_string()).unwrap(), "@X\n0;JMP\n");
    assert_eq!(
        fundecl("f".to_string(), "2".to_string()).unwrap(),
        "(f)\n@SP\nA=M\nM=0\n@SP\nM=M+1\n@SP\nA=M\nM=0\n@SP\nM=M+1\n"
    );
    let call = funcall("g".to_string(), "2".to_string(), 4).unwrap();
    assert!(call.starts_with("@g_RETURN_4\nD=A\n"));
    assert!(call.contains("@7\nD=D-A\n@ARG\nM=D\n"));
    assert!(call.ends_with("@g\n0;JMP\n(g_RETURN_4)\n"));
    assert!(funret().ends_with("@R15\nA=M\n0;JMP\n"));
}

#[test]
fn cleaning_lines() {
    let raw: Vec<String> = vec![
        "  push   constant  7  // seven".to_string(),
        "".to_string(),
        "   ".to_string(),
        "// only".to_string(),
        "add".to_string(),
    ];
    assert_eq!(remove_comments(raw), vec!["push constant 7".to_string(), "add".to_string()]);
    assert_eq!(
        partition_instr("push constant 7".to_string()),
        vec!["push".to_string(), "constant".to_string(), "7".to_string()]
    );
    assert_eq!(partition_instr(String::new()), vec![String::new()]);
}

#[test]
fn decimal_numerals() {
    assert_eq!(decimal(0), "0");
    assert_eq!(decimal(7), "7");
    assert_eq!(decimal(1024), "1024");
    assert_eq!(decimal(4294967295), "4294967295");
}
