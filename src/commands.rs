//! Lowering of single stack-machine commands into blocks of Hack assembly.
//!
//! Scratch cells are the predefined registers `R13` (target address of a
//! pop), `R14` (end of the frame being left) and `R15` (return address), so
//! that the assembler never hands their addresses to user variables.
use vstd::prelude::*;
use crate::text::{chars_of, dec, decimal, index_of, parse_index, same_text, ADDRESS_LIMIT};

verus! {

/// Why a command cannot be lowered.
#[derive(Clone, Copy, Debug, PartialEq, Eq, Structural)]
pub enum VmError {
    /// The segment name is not one of the eight, or is `constant` in a pop.
    InvalidSegment,
    /// The index is not a decimal number below 2^15, or is out of the segment's range.
    InvalidIndex,
    /// The command word, or the number of words on the line, is not recognised.
    UnknownCommand,
    /// A label counter has reached its largest value.
    CounterOverflow,
}

pub open spec fn view_result(r: Result<String, VmError>) -> Result<Seq<char>, VmError> {
    match r {
        Ok(s) => Ok(s@),
        Err(e) => Err(e),
    }
}

/// The base-pointer register of an indexed segment.
pub open spec fn base_pointer(seg: Seq<char>) -> Option<Seq<char>> {
    if seg == "local"@ {
        Some("LCL"@)
    } else if seg == "argument"@ {
        Some("ARG"@)
    } else if seg == "this"@ {
        Some("THIS"@)
    } else if seg == "that"@ {
        Some("THAT"@)
    } else {
        None
    }
}

pub open spec fn known_segment(seg: Seq<char>) -> bool {
    base_pointer(seg) is Some || seg == "constant"@ || seg == "static"@ || seg == "temp"@
        || seg == "pointer"@
}

/// Stores D on top of the stack and advances SP.
pub open spec fn push_d() -> Seq<char> {
    "@SP\nA=M\nM=D\n@SP\nM=M+1\n"@
}

/// Drops the top of the stack into D.
pub open spec fn pop_d() -> Seq<char> {
    "@SP\nAM=M-1\nD=M\n"@
}

pub open spec fn pointer_reg(i: nat) -> Seq<char> {
    if i == 0 {
        "THIS"@
    } else {
        "THAT"@
    }
}

/// The label of a static variable.
pub open spec fn static_label(file: Seq<char>, i: nat) -> Seq<char> {
    file + "."@ + dec(i)
}

/// `push seg i` once the index is known.
pub open spec fn push_asm(seg: Seq<char>, i: nat, file: Seq<char>) -> Result<Seq<char>, VmError> {
    if seg == "constant"@ {
        Ok("@"@ + dec(i) + "\nD=A\n"@ + push_d())
    } else if base_pointer(seg) is Some {
        Ok("@"@ + dec(i) + "\nD=A\n@"@ + base_pointer(seg)->0 + "\nA=D+M\nD=M\n"@ + push_d())
    } else if seg == "temp"@ {
        if i < 8 {
            Ok("@"@ + dec(i + 5) + "\nD=M\n"@ + push_d())
        } else {
            Err(VmError::InvalidIndex)
        }
    } else if seg == "pointer"@ {
        if i < 2 {
            Ok("@"@ + pointer_reg(i) + "\nD=M\n"@ + push_d())
        } else {
            Err(VmError::InvalidIndex)
        }
    } else if seg == "static"@ {
        Ok("@"@ + static_label(file, i) + "\nD=M\n"@ + push_d())
    } else {
        Err(VmError::InvalidSegment)
    }
}

/// `pop seg i` once the index is known.
pub open spec fn pop_asm(seg: Seq<char>, i: nat, file: Seq<char>) -> Result<Seq<char>, VmError> {
    if base_pointer(seg) is Some {
        Ok("@"@ + dec(i) + "\nD=A\n@"@ + base_pointer(seg)->0 + "\nD=D+M\n@R13\nM=D\n"@ + pop_d()
            + "@R13\nA=M\nM=D\n"@)
    } else if seg == "temp"@ {
        if i < 8 {
            Ok(pop_d() + "@"@ + dec(i + 5) + "\nM=D\n"@)
        } else {
            Err(VmError::InvalidIndex)
        }
    } else if seg == "pointer"@ {
        if i < 2 {
            Ok(pop_d() + "@"@ + pointer_reg(i) + "\nM=D\n"@)
        } else {
            Err(VmError::InvalidIndex)
        }
    } else if seg == "static"@ {
        Ok(pop_d() + "@"@ + static_label(file, i) + "\nM=D\n"@)
    } else {
        Err(VmError::InvalidSegment)
    }
}

/// The error for a command whose index text is not a valid index.
pub open spec fn index_error(seg: Seq<char>) -> VmError {
    if known_segment(seg) {
        VmError::InvalidIndex
    } else {
        VmError::InvalidSegment
    }
}

pub open spec fn lower_push(seg: Seq<char>, idx: Seq<char>, file: Seq<char>) -> Result<Seq<char>, VmError> {
    match index_of(idx) {
        Some(i) => push_asm(seg, i, file),
        None => Err(index_error(seg)),
    }
}

pub open spec fn lower_pop(seg: Seq<char>, idx: Seq<char>, file: Seq<char>) -> Result<Seq<char>, VmError> {
    match index_of(idx) {
        Some(i) => pop_asm(seg, i, file),
        None => Err(index_error(seg)),
    }
}

/// Maps a segment to the register holding its base address.
pub fn segment_mapping(segment: String) -> (r: Result<String, VmError>)
    ensures
        view_result(r) == match base_pointer(segment@) {
            Some(b) => Ok(b),
            None => Err(VmError::InvalidSegment),
        },
{
    if same_text(segment.as_str(), "local") {
        Ok(String::from_str("LCL"))
    } else if same_text(segment.as_str(), "argument") {
        Ok(String::from_str("ARG"))
    } else if same_text(segment.as_str(), "this") {
        Ok(String::from_str("THIS"))
    } else if same_text(segment.as_str(), "that") {
        Ok(String::from_str("THAT"))
    } else {
        Err(VmError::InvalidSegment)
    }
}

fn segment_known(segment: &String) -> (r: bool)
    ensures
        r == known_segment(segment@),
{
    same_text(segment.as_str(), "local") || same_text(segment.as_str(), "argument")
        || same_text(segment.as_str(), "this") || same_text(segment.as_str(), "that")
        || same_text(segment.as_str(), "constant") || same_text(segment.as_str(), "static")
        || same_text(segment.as_str(), "temp") || same_text(segment.as_str(), "pointer")
}

fn pointer_name(i: u32) -> (r: &'static str)
    ensures
        r@ == pointer_reg(i as nat),
{
    if i == 0 {
        "THIS"
    } else {
        "THAT"
    }
}

/// Lowers `push segment address`; `filename` names the static variables.
pub fn push_command(segment: String, address: String, filename: String) -> (r: Result<String, VmError>)
    ensures
        view_result(r) == lower_push(segment@, address@, filename@),
{
    let i = match parse_index(&chars_of(address.as_str())) {
        Some(i) => i,
        None => {
            return if segment_known(&segment) {
                Err(VmError::InvalidIndex)
            } else {
                Err(VmError::InvalidSegment)
            };
        },
    };
    let mut out = String::from_str("@");
    if same_text(segment.as_str(), "constant") {
        out.append(decimal(i).as_str());
        out.append("\nD=A\n");
    } else if same_text(segment.as_str(), "local") || same_text(segment.as_str(), "argument")
        || same_text(segment.as_str(), "this") || same_text(segment.as_str(), "that") {
        let base = segment_mapping(segment.clone());
        let base = match base {
            Ok(b) => b,
            Err(e) => {
                return Err(e);
            },
        };
        out.append(decimal(i).as_str());
        out.append("\nD=A\n@");
        out.append(base.as_str());
        out.append("\nA=D+M\nD=M\n");
    } else if same_text(segment.as_str(), "temp") {
        if i >= 8 {
            return Err(VmError::InvalidIndex);
        }
        out.append(decimal(i + 5).as_str());
        out.append("\nD=M\n");
    } else if same_text(segment.as_str(), "pointer") {
        if i >= 2 {
            return Err(VmError::InvalidIndex);
        }
        out.append(pointer_name(i));
        out.append("\nD=M\n");
    } else if same_text(segment.as_str(), "static") {
        out.append(filename.as_str());
        out.append(".");
        out.append(decimal(i).as_str());
        assert(out@ =~= "@"@ + static_label(filename@, i as nat));
        out.append("\nD=M\n");
    } else {
        return Err(VmError::InvalidSegment);
    }
    out.append("@SP\nA=M\nM=D\n@SP\nM=M+1\n");
    Ok(out)
}

/// Lowers `pop segment address`; `filename` names the static variables.
pub fn pop_command(segment: String, address: String, filename: String) -> (r: Result<String, VmError>)
    ensures
        view_result(r) == lower_pop(segment@, address@, filename@),
{
    let i = match parse_index(&chars_of(address.as_str())) {
        Some(i) => i,
        None => {
            return if segment_known(&segment) {
                Err(VmError::InvalidIndex)
            } else {
                Err(VmError::InvalidSegment)
            };
        },
    };
    if same_text(segment.as_str(), "local") || same_text(segment.as_str(), "argument")
        || same_text(segment.as_str(), "this") || same_text(segment.as_str(), "that") {
        let base = match segment_mapping(segment.clone()) {
            Ok(b) => b,
            Err(e) => {
                return Err(e);
            },
        };
        let mut out = String::from_str("@");
        out.append(decimal(i).as_str());
        out.append("\nD=A\n@");
        out.append(base.as_str());
        out.append("\nD=D+M\n@R13\nM=D\n");
        out.append("@SP\nAM=M-1\nD=M\n");
        out.append("@R13\nA=M\nM=D\n");
        return Ok(out);
    }
    let mut out = String::from_str("@SP\nAM=M-1\nD=M\n");
    out.append("@");
    if same_text(segment.as_str(), "temp") {
        if i >= 8 {
            return Err(VmError::InvalidIndex);
        }
        out.append(decimal(i + 5).as_str());
    } else if same_text(segment.as_str(), "pointer") {
        if i >= 2 {
            return Err(VmError::InvalidIndex);
        }
        out.append(pointer_name(i));
    } else if same_text(segment.as_str(), "static") {
        let ghost before = out@;
        out.append(filename.as_str());
        out.append(".");
        out.append(decimal(i).as_str());
        assert(out@ =~= before + static_label(filename@, i as nat));
    } else {
        return Err(VmError::InvalidSegment);
    }
    out.append("\nM=D\n");
    Ok(out)
}

/// The three comparison commands.
#[derive(Clone, Copy, Debug, PartialEq, Eq, Structural)]
pub enum Comparison {
    Eq,
    Gt,
    Lt,
}

pub open spec fn comparison_of(op: Seq<char>) -> Option<Comparison> {
    if op == "eq"@ {
        Some(Comparison::Eq)
    } else if op == "gt"@ {
        Some(Comparison::Gt)
    } else if op == "lt"@ {
        Some(Comparison::Lt)
    } else {
        None
    }
}

/// Prefix of the label taken when the comparison holds.
pub open spec fn true_prefix(k: Comparison) -> Seq<char> {
    match k {
        Comparison::Eq => "ISEQUAL"@,
        Comparison::Gt => "ISGREATER_GT"@,
        Comparison::Lt => "ISLESS_LT"@,
    }
}

/// Prefix of the label taken when the comparison fails.
pub open spec fn false_prefix(k: Comparison) -> Seq<char> {
    match k {
        Comparison::Eq => "NOTEQUAL"@,
        Comparison::Gt => "ISLESS_GT"@,
        Comparison::Lt => "ISGREATER_LT"@,
    }
}

/// Prefix of the label where both branches rejoin.
pub open spec fn end_prefix(k: Comparison) -> Seq<char> {
    match k {
        Comparison::Eq => "EQEND"@,
        Comparison::Gt => "GTEND"@,
        Comparison::Lt => "LTEND"@,
    }
}

pub open spec fn jump_of(k: Comparison) -> Seq<char> {
    match k {
        Comparison::Eq => "JEQ"@,
        Comparison::Gt => "JGT"@,
        Comparison::Lt => "JLT"@,
    }
}

/// The labels that the `n`-th comparison of kind `k` declares.
pub open spec fn compare_labels(k: Comparison, n: nat) -> Seq<Seq<char>> {
    seq![true_prefix(k) + dec(n), false_prefix(k) + dec(n), end_prefix(k) + dec(n)]
}

/// Replaces the two top cells by -1 when the comparison holds, by 0 otherwise.
pub open spec fn compare_asm(k: Comparison, n: nat) -> Seq<char> {
    let t = compare_labels(k, n)[0];
    let f = compare_labels(k, n)[1];
    let e = compare_labels(k, n)[2];
    "@SP\nAM=M-1\nD=M\nA=A-1\nD=M-D\n@"@ + t + "\nD;"@ + jump_of(k) + "\n@"@ + f
        + "\n0;JMP\n("@ + t + ")\n@SP\nA=M-1\nM=-1\n@"@ + e + "\n0;JMP\n("@ + f
        + ")\n@SP\nA=M-1\nM=0\n("@ + e + ")\n"@
}

/// Combines the two top cells with the operation written in `op_line`.
pub open spec fn binary_asm(op_line: Seq<char>) -> Seq<char> {
    "@SP\nAM=M-1\nD=M\nA=A-1\n"@ + op_line
}

/// An arithmetic or logical command; `n` numbers the labels of a comparison.
pub open spec fn lower_arith(op: Seq<char>, n: nat) -> Option<Seq<char>> {
    if op == "add"@ {
        Some(binary_asm("M=D+M\n"@))
    } else if op == "sub"@ {
        Some(binary_asm("M=M-D\n"@))
    } else if op == "and"@ {
        Some(binary_asm("M=D&M\n"@))
    } else if op == "or"@ {
        Some(binary_asm("M=D|M\n"@))
    } else if op == "neg"@ {
        Some("@SP\nA=M-1\nM=-M\n"@)
    } else if op == "not"@ {
        Some("@SP\nA=M-1\nM=!M\n"@)
    } else if comparison_of(op) is Some {
        Some(compare_asm(comparison_of(op)->0, n))
    } else {
        None
    }
}

fn prefixes(k: Comparison) -> (r: (&'static str, &'static str, &'static str, &'static str))
    ensures
        r.0@ == true_prefix(k),
        r.1@ == false_prefix(k),
        r.2@ == end_prefix(k),
        r.3@ == jump_of(k),
{
    match k {
        Comparison::Eq => ("ISEQUAL", "NOTEQUAL", "EQEND", "JEQ"),
        Comparison::Gt => ("ISGREATER_GT", "ISLESS_GT", "GTEND", "JGT"),
        Comparison::Lt => ("ISLESS_LT", "ISGREATER_LT", "LTEND", "JLT"),
    }
}

pub(crate) fn compare_block(k: Comparison, n: u32) -> (r: String)
    ensures
        r@ == compare_asm(k, n as nat),
{
    let (tp, fp, ep, jump) = prefixes(k);
    let num = decimal(n);
    let mut t = String::from_str(tp);
    t.append(num.as_str());
    let mut f = String::from_str(fp);
    f.append(num.as_str());
    let mut e = String::from_str(ep);
    e.append(num.as_str());
    let mut out = String::from_str("@SP\nAM=M-1\nD=M\nA=A-1\nD=M-D\n@");
    out.append(t.as_str());
    out.append("\nD;");
    out.append(jump);
    out.append("\n@");
    out.append(f.as_str());
    out.append("\n0;JMP\n(");
    out.append(t.as_str());
    out.append(")\n@SP\nA=M-1\nM=-1\n@");
    out.append(e.as_str());
    out.append("\n0;JMP\n(");
    out.append(f.as_str());
    out.append(")\n@SP\nA=M-1\nM=0\n(");
    out.append(e.as_str());
    out.append(")\n");
    out
}

/// Which comparison a command word names.
pub fn comparison(command: &String) -> (r: Option<Comparison>)
    ensures
        r == comparison_of(command@),
{
    if same_text(command.as_str(), "eq") {
        Some(Comparison::Eq)
    } else if same_text(command.as_str(), "gt") {
        Some(Comparison::Gt)
    } else if same_text(command.as_str(), "lt") {
        Some(Comparison::Lt)
    } else {
        None
    }
}

/// Lowers an arithmetic or logical command; `cnt` numbers a comparison's labels.
pub fn arithmetic_command(command: String, cnt: u32) -> (r: Result<String, VmError>)
    ensures
        view_result(r) == match lower_arith(command@, cnt as nat) {
            Some(s) => Ok(s),
            None => Err(VmError::UnknownCommand),
        },
{
    if same_text(command.as_str(), "add") {
        Ok(binary_block("M=D+M\n"))
    } else if same_text(command.as_str(), "sub") {
        Ok(binary_block("M=M-D\n"))
    } else if same_text(command.as_str(), "and") {
        Ok(binary_block("M=D&M\n"))
    } else if same_text(command.as_str(), "or") {
        Ok(binary_block("M=D|M\n"))
    } else if same_text(command.as_str(), "neg") {
        Ok(String::from_str("@SP\nA=M-1\nM=-M\n"))
    } else if same_text(command.as_str(), "not") {
        Ok(String::from_str("@SP\nA=M-1\nM=!M\n"))
    } else {
        match comparison(&command) {
            Some(k) => Ok(compare_block(k, cnt)),
            None => Err(VmError::UnknownCommand),
        }
    }
}

fn binary_block(op_line: &str) -> (r: String)
    ensures
        r@ == binary_asm(op_line@),
{
    let mut out = String::from_str("@SP\nAM=M-1\nD=M\nA=A-1\n");
    out.append(op_line);
    out
}

/// `label`, `goto` and `if-goto`.
pub open spec fn lower_branch(word: Seq<char>, label: Seq<char>) -> Option<Seq<char>> {
    if word == "label"@ {
        Some("("@ + label + ")\n"@)
    } else if word == "goto"@ {
        Some("@"@ + label + "\n0;JMP\n"@)
    } else if word == "if-goto"@ {
        Some(pop_d() + "@"@ + label + "\nD;JNE\n"@)
    } else {
        None
    }
}

/// Lowers a branching command `arg1 arg2`.
pub fn branching_command(arg1: String, arg2: String) -> (r: Result<String, VmError>)
    ensures
        view_result(r) == match lower_branch(arg1@, arg2@) {
            Some(s) => Ok(s),
            None => Err(VmError::UnknownCommand),
        },
{
    let mut out;
    let tail;
    if same_text(arg1.as_str(), "label") {
        out = String::from_str("(");
        tail = ")\n";
    } else if same_text(arg1.as_str(), "goto") {
        out = String::from_str("@");
        tail = "\n0;JMP\n";
    } else if same_text(arg1.as_str(), "if-goto") {
        out = String::from_str("@SP\nAM=M-1\nD=M\n");
        out.append("@");
        tail = "\nD;JNE\n";
    } else {
        return Err(VmError::UnknownCommand);
    }
    out.append(arg2.as_str());
    out.append(tail);
    Ok(out)
}

/// Saves the caller's four base pointers on the stack.
pub open spec fn save_frame() -> Seq<char> {
    "@LCL\nD=M\n@SP\nA=M\nM=D\n@SP\nM=M+1\n@ARG\nD=M\n@SP\nA=M\nM=D\n@SP\nM=M+1\n@THIS\nD=M\n@SP\nA=M\nM=D\n@SP\nM=M+1\n@THAT\nD=M\n@SP\nA=M\nM=D\n@SP\nM=M+1\n"@
}

/// The return label of call site `c` of function `f`.
pub open spec fn return_label(f: Seq<char>, c: nat) -> Seq<char> {
    f + "_RETURN_"@ + dec(c)
}

/// `call f n` at call site `c`.
pub open spec fn call_asm(f: Seq<char>, n: nat, c: nat) -> Seq<char> {
    "@"@ + return_label(f, c) + "\nD=A\n"@ + push_d() + save_frame() + "@SP\nD=M\n@"@ + dec(n + 5)
        + "\nD=D-A\n@ARG\nM=D\n@SP\nD=M\n@LCL\nM=D\n@"@ + f + "\n0;JMP\n("@ + return_label(f, c)
        + ")\n"@
}

fn call_block(fun: &str, n: u32, cnt: u32) -> (r: String)
    requires
        n < ADDRESS_LIMIT,
    ensures
        r@ == call_asm(fun@, n as nat, cnt as nat),
{
    let mut label = String::from_str(fun);
    label.append("_RETURN_");
    label.append(decimal(cnt).as_str());
    assert(label@ =~= return_label(fun@, cnt as nat));
    let mut out = String::from_str("@");
    out.append(label.as_str());
    out.append("\nD=A\n");
    out.append("@SP\nA=M\nM=D\n@SP\nM=M+1\n");
    out.append("@LCL\nD=M\n@SP\nA=M\nM=D\n@SP\nM=M+1\n@ARG\nD=M\n@SP\nA=M\nM=D\n@SP\nM=M+1\n@THIS\nD=M\n@SP\nA=M\nM=D\n@SP\nM=M+1\n@THAT\nD=M\n@SP\nA=M\nM=D\n@SP\nM=M+1\n");
    out.append("@SP\nD=M\n@");
    out.append(decimal(n + 5).as_str());
    out.append("\nD=D-A\n@ARG\nM=D\n@SP\nD=M\n@LCL\nM=D\n@");
    out.append(fun);
    out.append("\n0;JMP\n(");
    out.append(label.as_str());
    out.append(")\n");
    out
}

/// Lowers `call fun args` at call site `cnt`.
pub fn funcall(fun: String, args: String, cnt: u32) -> (r: Result<String, VmError>)
    ensures
        view_result(r) == match index_of(args@) {
            Some(n) => Ok(call_asm(fun@, n, cnt as nat)),
            None => Err(VmError::InvalidIndex),
        },
{
    match parse_index(&chars_of(args.as_str())) {
        Some(n) => Ok(call_block(fun.as_str(), n, cnt)),
        None => Err(VmError::InvalidIndex),
    }
}

/// Pushes one zero.
pub open spec fn push_zero() -> Seq<char> {
    "@SP\nA=M\nM=0\n@SP\nM=M+1\n"@
}

/// `k` copies of `s`.
pub open spec fn repeat(s: Seq<char>, k: nat) -> Seq<char>
    decreases k,
{
    if k == 0 {
        Seq::empty()
    } else {
        repeat(s, (k - 1) as nat) + s
    }
}

/// `function f k`: the entry label, then `k` locals set to zero.
pub open spec fn function_asm(f: Seq<char>, k: nat) -> Seq<char> {
    "("@ + f + ")\n"@ + repeat(push_zero(), k)
}

/// Lowers `function fun args`, where `args` counts the locals.
pub fn fundecl(fun: String, args: String) -> (r: Result<String, VmError>)
    ensures
        view_result(r) == match index_of(args@) {
            Some(k) => Ok(function_asm(fun@, k)),
            None => Err(VmError::InvalidIndex),
        },
{
    let k = match parse_index(&chars_of(args.as_str())) {
        Some(k) => k,
        None => {
            return Err(VmError::InvalidIndex);
        },
    };
    let mut out = String::from_str("(");
    out.append(fun.as_str());
    out.append(")\n");
    let ghost head = out@;
    let mut j: u32 = 0;
    while j < k
        invariant
            j <= k,
            out@ == head + repeat(push_zero(), j as nat),
        decreases k - j,
    {
        out.append("@SP\nA=M\nM=0\n@SP\nM=M+1\n");
        j = j + 1;
        assert(out@ =~= head + repeat(push_zero(), j as nat));
    }
    Ok(out)
}

/// Leaves a function: restores the caller's frame and jumps back.
pub open spec fn return_asm() -> Seq<char> {
    "@LCL\nD=M\n@R14\nM=D\n@5\nA=D-A\nD=M\n@R15\nM=D\n@SP\nAM=M-1\nD=M\n@ARG\nA=M\nM=D\n@ARG\nD=M+1\n@SP\nM=D\n@R14\nAM=M-1\nD=M\n@THAT\nM=D\n@R14\nAM=M-1\nD=M\n@THIS\nM=D\n@R14\nAM=M-1\nD=M\n@ARG\nM=D\n@R14\nAM=M-1\nD=M\n@LCL\nM=D\n@R15\nA=M\n0;JMP\n"@
}

/// Lowers `return`.
pub fn funret() -> (r: String)
    ensures
        r@ == return_asm(),
{
    String::from_str("@LCL\nD=M\n@R14\nM=D\n@5\nA=D-A\nD=M\n@R15\nM=D\n@SP\nAM=M-1\nD=M\n@ARG\nA=M\nM=D\n@ARG\nD=M+1\n@SP\nM=D\n@R14\nAM=M-1\nD=M\n@THAT\nM=D\n@R14\nAM=M-1\nD=M\n@THIS\nM=D\n@R14\nAM=M-1\nD=M\n@ARG\nM=D\n@R14\nAM=M-1\nD=M\n@LCL\nM=D\n@R15\nA=M\n0;JMP\n")
}

/// Sets SP to 256, then calls `Sys.init` with no arguments at call site 0.
pub open spec fn bootstrap_asm() -> Seq<char> {
    "@256\nD=A\n@SP\nM=D\n"@ + call_asm("Sys.init"@, 0, 0)
}

/// The code that starts a whole program.
pub fn bootstrap() -> (r: String)
    ensures
        r@ == bootstrap_asm(),
{
    let mut out = String::from_str("@256\nD=A\n@SP\nM=D\n");
    out.append(call_block("Sys.init", 0, 0).as_str());
    out
}

} // verus!
