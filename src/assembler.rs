//! The Hack assembler: two passes over cleaned lines, the first binding
//! labels to instruction indices, the second allocating variables from 16
//! and encoding each instruction as a 16-bit word.
use vstd::prelude::*;
use crate::text::{all_digits, chars_of, code_part, comment_start, dec_value, lemma_comment_bound, parse_index, split_chars, split_on, ADDRESS_LIMIT};

verus! {

pub open spec fn is_blank(c: char) -> bool {
    c == ' ' || c == '\t' || c == '\r'
}

/// A line with its blanks removed.
pub open spec fn strip_blanks(s: Seq<char>) -> Seq<char>
    decreases s.len(),
{
    if s.len() == 0 {
        Seq::empty()
    } else if is_blank(s.last()) {
        strip_blanks(s.drop_last())
    } else {
        strip_blanks(s.drop_last()).push(s.last())
    }
}

/// An assembly line without its comment and blanks.
pub open spec fn clean_asm(l: Seq<char>) -> Seq<char> {
    strip_blanks(code_part(l))
}

pub open spec fn is_symbol_char(c: char) -> bool {
    ('a' <= c && c <= 'z') || ('A' <= c && c <= 'Z') || ('0' <= c && c <= '9') || c == '_' || c == '.'
        || c == '$' || c == ':'
}

pub open spec fn is_symbol(s: Seq<char>) -> bool {
    s.len() > 0 && forall|i: int| 0 <= i < s.len() ==> is_symbol_char(#[trigger] s[i])
}

/// The name declared by a line `(NAME)`.
pub open spec fn label_of(l: Seq<char>) -> Option<Seq<char>> {
    if l.len() >= 2 && l[0] == '(' && l.last() == ')' && is_symbol(l.subrange(1, l.len() - 1)) {
        Some(l.subrange(1, l.len() - 1))
    } else {
        None
    }
}

/// The operand of a line `@X`.
pub open spec fn a_operand(l: Seq<char>) -> Option<Seq<char>> {
    if l.len() >= 1 && l[0] == '@' && is_symbol(l.drop_first()) {
        Some(l.drop_first())
    } else {
        None
    }
}

/// Position of the first `c` at or after `i`, or the length.
pub open spec fn find_from(s: Seq<char>, c: char, i: nat) -> nat
    decreases s.len() - i,
{
    if i >= s.len() {
        s.len()
    } else if s[i as int] == c {
        i
    } else {
        find_from(s, c, i + 1)
    }
}

/// The seven bits `a c1..c6` of a computation.
pub open spec fn comp_code(s: Seq<char>) -> Option<nat> {
    if s == "0"@ {
        Some(42)
    } else if s == "1"@ {
        Some(63)
    } else if s == "-1"@ {
        Some(58)
    } else if s == "D"@ {
        Some(12)
    } else if s == "A"@ {
        Some(48)
    } else if s == "M"@ {
        Some(112)
    } else if s == "!D"@ {
        Some(13)
    } else if s == "!A"@ {
        Some(49)
    } else if s == "!M"@ {
        Some(113)
    } else if s == "-D"@ {
        Some(15)
    } else if s == "-A"@ {
        Some(51)
    } else if s == "-M"@ {
        Some(115)
    } else if s == "D+1"@ {
        Some(31)
    } else if s == "A+1"@ {
        Some(55)
    } else if s == "M+1"@ {
        Some(119)
    } else if s == "D-1"@ {
        Some(14)
    } else if s == "A-1"@ {
        Some(50)
    } else if s == "M-1"@ {
        Some(114)
    } else if s == "D+A"@ {
        Some(2)
    } else if s == "D+M"@ {
        Some(66)
    } else if s == "D-A"@ {
        Some(19)
    } else if s == "D-M"@ {
        Some(83)
    } else if s == "A-D"@ {
        Some(7)
    } else if s == "M-D"@ {
        Some(71)
    } else if s == "D&A"@ {
        Some(0)
    } else if s == "D&M"@ {
        Some(64)
    } else if s == "D|A"@ {
        Some(21)
    } else if s == "D|M"@ {
        Some(85)
    } else {
        None
    }
}

/// The three destination bits.
pub open spec fn dest_code(s: Seq<char>) -> Option<nat> {
    if s == ""@ {
        Some(0)
    } else if s == "M"@ {
        Some(1)
    } else if s == "D"@ {
        Some(2)
    } else if s == "MD"@ {
        Some(3)
    } else if s == "A"@ {
        Some(4)
    } else if s == "AM"@ {
        Some(5)
    } else if s == "AD"@ {
        Some(6)
    } else if s == "AMD"@ {
        Some(7)
    } else {
        None
    }
}

/// The three jump bits.
pub open spec fn jump_code(s: Seq<char>) -> Option<nat> {
    if s == ""@ {
        Some(0)
    } else if s == "JGT"@ {
        Some(1)
    } else if s == "JEQ"@ {
        Some(2)
    } else if s == "JGE"@ {
        Some(3)
    } else if s == "JLT"@ {
        Some(4)
    } else if s == "JNE"@ {
        Some(5)
    } else if s == "JLE"@ {
        Some(6)
    } else if s == "JMP"@ {
        Some(7)
    } else {
        None
    }
}

/// The destination part of `dest=comp;jmp`: empty without `=`.
pub open spec fn dest_part(l: Seq<char>) -> Seq<char> {
    if find_from(l, '=', 0) < l.len() {
        l.take(find_from(l, '=', 0) as int)
    } else {
        Seq::empty()
    }
}

/// What follows the destination.
pub open spec fn after_dest(l: Seq<char>) -> Seq<char> {
    if find_from(l, '=', 0) < l.len() {
        l.skip(find_from(l, '=', 0) as int + 1)
    } else {
        l
    }
}

pub open spec fn comp_part(l: Seq<char>) -> Seq<char> {
    let r = after_dest(l);
    r.take(find_from(r, ';', 0) as int)
}

pub open spec fn jump_part(l: Seq<char>) -> Seq<char> {
    let r = after_dest(l);
    if find_from(r, ';', 0) < r.len() {
        r.skip(find_from(r, ';', 0) as int + 1)
    } else {
        Seq::empty()
    }
}

/// The word `111 a c1..c6 d1 d2 d3 j1 j2 j3` of a computation, if all three mnemonics are known.
pub open spec fn compute_encoding(dest: Seq<char>, comp: Seq<char>, jmp: Seq<char>) -> Option<nat> {
    match (comp_code(comp), dest_code(dest), jump_code(jmp)) {
        (Some(c), Some(d), Some(j)) => Some(57344 + c * 64 + d * 8 + j),
        _ => None,
    }
}

/// The machine word of a C-instruction line, if its three parts are known.
pub open spec fn c_word(l: Seq<char>) -> Option<nat> {
    compute_encoding(dest_part(l), comp_part(l), jump_part(l))
}

/// The symbols every program starts with.
pub open spec fn predefined() -> Seq<(Seq<char>, nat)> {
    seq![("SP"@, 0nat), ("LCL"@, 1nat), ("ARG"@, 2nat), ("THIS"@, 3nat), ("THAT"@, 4nat), ("R0"@, 0nat), ("R1"@, 1nat), ("R2"@, 2nat), ("R3"@, 3nat), ("R4"@, 4nat), ("R5"@, 5nat), ("R6"@, 6nat), ("R7"@, 7nat), ("R8"@, 8nat), ("R9"@, 9nat), ("R10"@, 10nat), ("R11"@, 11nat), ("R12"@, 12nat), ("R13"@, 13nat), ("R14"@, 14nat), ("R15"@, 15nat), ("SCREEN"@, 16384nat), ("KBD"@, 24576nat)]
}

/// The address of the latest binding of `k`.
pub open spec fn lookup(t: Seq<(Seq<char>, nat)>, k: Seq<char>) -> Option<nat>
    decreases t.len(),
{
    if t.len() == 0 {
        None
    } else if t.last().0 == k {
        Some(t.last().1)
    } else {
        lookup(t.drop_last(), k)
    }
}

/// Whether two character sequences agree with a literal.
fn same_chars(s: &Vec<char>, lit: &str) -> (r: bool)
    ensures
        r == (s@ == lit@),
{
    chars_equal(s, &chars_of(lit))
}

fn chars_equal(a: &Vec<char>, b: &Vec<char>) -> (r: bool)
    ensures
        r == (a@ == b@),
{
    if a.len() != b.len() {
        return false;
    }
    let mut i: usize = 0;
    while i < a.len()
        invariant
            i <= a.len() == b.len(),
            a@.take(i as int) == b@.take(i as int),
        decreases a.len() - i,
    {
        if a[i] != b[i] {
            return false;
        }
        assert(a@.take(i + 1) =~= a@.take(i as int).push(a@[i as int]));
        assert(b@.take(i + 1) =~= b@.take(i as int).push(b@[i as int]));
        i = i + 1;
    }
    assert(a@ =~= a@.take(i as int));
    assert(b@ =~= b@.take(i as int));
    true
}

fn comp_bits(s: &Vec<char>) -> (r: Option<u32>)
    ensures
        match r {
            Some(v) => comp_code(s@) == Some(v as nat),
            None => comp_code(s@) is None,
        },
{
    if same_chars(s, "0") {
        Some(42)
    } else if same_chars(s, "1") {
        Some(63)
    } else if same_chars(s, "-1") {
        Some(58)
    } else if same_chars(s, "D") {
        Some(12)
    } else if same_chars(s, "A") {
        Some(48)
    } else if same_chars(s, "M") {
        Some(112)
    } else if same_chars(s, "!D") {
        Some(13)
    } else if same_chars(s, "!A") {
        Some(49)
    } else if same_chars(s, "!M") {
        Some(113)
    } else if same_chars(s, "-D") {
        Some(15)
    } else if same_chars(s, "-A") {
        Some(51)
    } else if same_chars(s, "-M") {
        Some(115)
    } else if same_chars(s, "D+1") {
        Some(31)
    } else if same_chars(s, "A+1") {
        Some(55)
    } else if same_chars(s, "M+1") {
        Some(119)
    } else if same_chars(s, "D-1") {
        Some(14)
    } else if same_chars(s, "A-1") {
        Some(50)
    } else if same_chars(s, "M-1") {
        Some(114)
    } else if same_chars(s, "D+A") {
        Some(2)
    } else if same_chars(s, "D+M") {
        Some(66)
    } else if same_chars(s, "D-A") {
        Some(19)
    } else if same_chars(s, "D-M") {
        Some(83)
    } else if same_chars(s, "A-D") {
        Some(7)
    } else if same_chars(s, "M-D") {
        Some(71)
    } else if same_chars(s, "D&A") {
        Some(0)
    } else if same_chars(s, "D&M") {
        Some(64)
    } else if same_chars(s, "D|A") {
        Some(21)
    } else if same_chars(s, "D|M") {
        Some(85)
    } else {
        None
    }
}

fn dest_bits(s: &Vec<char>) -> (r: Option<u32>)
    ensures
        match r {
            Some(v) => dest_code(s@) == Some(v as nat),
            None => dest_code(s@) is None,
        },
{
    if same_chars(s, "") {
        Some(0)
    } else if same_chars(s, "M") {
        Some(1)
    } else if same_chars(s, "D") {
        Some(2)
    } else if same_chars(s, "MD") {
        Some(3)
    } else if same_chars(s, "A") {
        Some(4)
    } else if same_chars(s, "AM") {
        Some(5)
    } else if same_chars(s, "AD") {
        Some(6)
    } else if same_chars(s, "AMD") {
        Some(7)
    } else {
        None
    }
}

fn jump_bits(s: &Vec<char>) -> (r: Option<u32>)
    ensures
        match r {
            Some(v) => jump_code(s@) == Some(v as nat),
            None => jump_code(s@) is None,
        },
{
    if same_chars(s, "") {
        Some(0)
    } else if same_chars(s, "JGT") {
        Some(1)
    } else if same_chars(s, "JEQ") {
        Some(2)
    } else if same_chars(s, "JGE") {
        Some(3)
    } else if same_chars(s, "JLT") {
        Some(4)
    } else if same_chars(s, "JNE") {
        Some(5)
    } else if same_chars(s, "JLE") {
        Some(6)
    } else if same_chars(s, "JMP") {
        Some(7)
    } else {
        None
    }
}


pub open spec fn bit_char(b: nat) -> char {
    if b == 1 {
        '1'
    } else {
        '0'
    }
}

/// The low `n` bits of `w`, most significant first.
pub open spec fn bits(w: nat, n: nat) -> Seq<char>
    decreases n,
{
    if n == 0 {
        Seq::empty()
    } else {
        bits(w / 2, (n - 1) as nat).push(bit_char(w % 2))
    }
}

/// A machine word as sixteen binary digits.
pub open spec fn bin16(w: nat) -> Seq<char> {
    bits(w, 16)
}

/// The words of a program, one line each.
pub open spec fn render(ws: Seq<nat>) -> Seq<char>
    decreases ws.len(),
{
    if ws.len() == 0 {
        Seq::empty()
    } else {
        render(ws.drop_last()) + bin16(ws.last()) + "\n"@
    }
}

/// The cleaned lines of an assembly text, blank ones included.
pub open spec fn asm_source(input: Seq<char>) -> Seq<Seq<char>> {
    split_on(input, '\n').map_values(|l: Seq<char>| clean_asm(l))
}

/// First pass: the symbol table with every label bound to the index of the
/// instruction that follows it, and the number of instructions.
pub open spec fn pass1(cls: Seq<Seq<char>>) -> (Seq<(Seq<char>, nat)>, nat)
    decreases cls.len(),
{
    if cls.len() == 0 {
        (predefined(), 0)
    } else {
        let (t, pc) = pass1(cls.drop_last());
        let l = cls.last();
        if label_of(l) is Some {
            (t.push((label_of(l)->0, pc)), pc)
        } else if l.len() == 0 {
            (t, pc)
        } else {
            (t, pc + 1)
        }
    }
}

/// Second pass from table `t0`: the words, the table with the variables
/// added, and the next free variable address; or the 1-based number of the
/// first line that cannot be encoded.
pub open spec fn pass2(cls: Seq<Seq<char>>, t0: Seq<(Seq<char>, nat)>) -> Result<(Seq<nat>, Seq<(Seq<char>, nat)>, nat), nat>
    decreases cls.len(),
{
    if cls.len() == 0 {
        Ok((Seq::empty(), t0, 16))
    } else {
        match pass2(cls.drop_last(), t0) {
            Err(n) => Err(n),
            Ok((ws, t, nx)) => {
                let l = cls.last();
                let line = cls.len();
                if l.len() == 0 || label_of(l) is Some {
                    Ok((ws, t, nx))
                } else if a_operand(l) is Some {
                    let x = a_operand(l)->0;
                    if all_digits(x) {
                        if dec_value(x) < ADDRESS_LIMIT {
                            Ok((ws.push(dec_value(x)), t, nx))
                        } else {
                            Err(line)
                        }
                    } else {
                        match lookup(t, x) {
                            Some(a) => if a < ADDRESS_LIMIT {
                                Ok((ws.push(a), t, nx))
                            } else {
                                Err(line)
                            },
                            None => if nx < ADDRESS_LIMIT {
                                Ok((ws.push(nx), t.push((x, nx)), nx + 1))
                            } else {
                                Err(line)
                            },
                        }
                    }
                } else {
                    match c_word(l) {
                        Some(w) => Ok((ws.push(w), t, nx)),
                        None => Err(line),
                    }
                }
            },
        }
    }
}

/// The machine words of an assembly text, or the number of the first bad line.
pub open spec fn assemble_words(input: Seq<char>) -> Result<Seq<nat>, nat> {
    let cls = asm_source(input);
    match pass2(cls, pass1(cls).0) {
        Ok((ws, _, _)) => Ok(ws),
        Err(n) => Err(n),
    }
}

/// The line of an assembly text that could not be encoded, counted from 1.
#[derive(Clone, Copy, Debug, PartialEq, Eq, Structural)]
pub struct SyntaxError {
    pub line: usize,
}

fn append_bits(out: &mut String, w: u32, n: u32)
    requires
        n <= 32,
    ensures
        final(out)@ == old(out)@ + bits(w as nat, n as nat),
    decreases n,
{
    if n == 0 {
        assert(old(out)@ + bits(w as nat, 0) =~= old(out)@);
        return;
    }
    append_bits(out, w / 2, n - 1);
    let ghost mid = out@;
    if w % 2 == 1 {
        proof {
            reveal_strlit("1");
        }
        out.append("1");
    } else {
        proof {
            reveal_strlit("0");
        }
        out.append("0");
    }
    assert(out@ =~= old(out)@ + bits(w as nat, n as nat));
}

fn blank(c: char) -> (r: bool)
    ensures
        r == is_blank(c),
{
    c == ' ' || c == '\t' || c == '\r'
}

fn symbol_char(c: char) -> (r: bool)
    ensures
        r == is_symbol_char(c),
{
    ('a' <= c && c <= 'z') || ('A' <= c && c <= 'Z') || ('0' <= c && c <= '9') || c == '_' || c == '.'
        || c == '$' || c == ':'
}

/// Removes the comment and the blanks of a line.
fn clean(l: &Vec<char>) -> (r: Vec<char>)
    ensures
        r@ == clean_asm(l@),
{
    let cut = comment_start(l);
    proof {
        lemma_comment_bound(l@, 0);
    }
    let mut out: Vec<char> = Vec::new();
    let mut i: usize = 0;
    assert(l@.take(0) =~= Seq::<char>::empty());
    while i < cut
        invariant
            i <= cut <= l.len(),
            out@ == strip_blanks(l@.take(i as int)),
        decreases cut - i,
    {
        assert(l@.take(i + 1).drop_last() =~= l@.take(i as int));
        if !blank(l[i]) {
            out.push(l[i]);
        }
        i = i + 1;
    }
    out
}

/// A copy of `s[from..to]`.
fn slice(s: &Vec<char>, from: usize, to: usize) -> (r: Vec<char>)
    requires
        from <= to <= s.len(),
    ensures
        r@ == s@.subrange(from as int, to as int),
{
    let mut out: Vec<char> = Vec::new();
    let mut i: usize = from;
    while i < to
        invariant
            from <= i <= to <= s.len(),
            out@ == s@.subrange(from as int, i as int),
        decreases to - i,
    {
        out.push(s[i]);
        i = i + 1;
        assert(out@ =~= s@.subrange(from as int, i as int));
    }
    out
}

fn symbol_between(s: &Vec<char>, from: usize, to: usize) -> (r: bool)
    requires
        from <= to <= s.len(),
    ensures
        r == is_symbol(s@.subrange(from as int, to as int)),
{
    if from == to {
        return false;
    }
    let mut i: usize = from;
    while i < to
        invariant
            from <= i <= to <= s.len(),
            forall|j: int| from <= j < i ==> is_symbol_char(#[trigger] s@[j]),
        decreases to - i,
    {
        if !symbol_char(s[i]) {
            assert(s@.subrange(from as int, to as int)[i - from] == s@[i as int]);
            return false;
        }
        i = i + 1;
    }
    assert forall|j: int| 0 <= j < to - from implies is_symbol_char(#[trigger] s@.subrange(from as int, to as int)[j]) by {
        assert(s@.subrange(from as int, to as int)[j] == s@[from + j]);
    }
    true
}

fn label_name(l: &Vec<char>) -> (r: Option<Vec<char>>)
    ensures
        match r {
            Some(v) => label_of(l@) == Some(v@),
            None => label_of(l@) is None,
        },
{
    let n = l.len();
    if n >= 2 && l[0] == '(' && l[n - 1] == ')' && symbol_between(l, 1, n - 1) {
        Some(slice(l, 1, n - 1))
    } else {
        None
    }
}

fn operand(l: &Vec<char>) -> (r: Option<Vec<char>>)
    ensures
        match r {
            Some(v) => a_operand(l@) == Some(v@),
            None => a_operand(l@) is None,
        },
{
    let n = l.len();
    if n >= 1 && l[0] == '@' && symbol_between(l, 1, n) {
        assert(l@.drop_first() =~= l@.subrange(1, n as int));
        Some(slice(l, 1, n))
    } else {
        assert(n >= 1 ==> l@.drop_first() =~= l@.subrange(1, n as int));
        None
    }
}

fn find_char(s: &Vec<char>, c: char) -> (r: usize)
    ensures
        r as nat == find_from(s@, c, 0),
        r <= s.len(),
{
    let mut i: usize = 0;
    while i < s.len()
        invariant
            i <= s.len(),
            find_from(s@, c, 0) == find_from(s@, c, i as nat),
        decreases s.len() - i,
    {
        if s[i] == c {
            return i;
        }
        i = i + 1;
    }
    i
}

fn encode_compute(dest: &Vec<char>, comp: &Vec<char>, jmp: &Vec<char>) -> (r: Option<u32>)
    ensures
        match r {
            Some(w) => compute_encoding(dest@, comp@, jmp@) == Some(w as nat),
            None => compute_encoding(dest@, comp@, jmp@) is None,
        },
{
    match (comp_bits(comp), dest_bits(dest), jump_bits(jmp)) {
        (Some(c), Some(d), Some(j)) => Some(57344 + c * 64 + d * 8 + j),
        _ => None,
    }
}

fn compute_word(l: &Vec<char>) -> (r: Option<u32>)
    ensures
        match r {
            Some(w) => c_word(l@) == Some(w as nat),
            None => c_word(l@) is None,
        },
{
    let n = l.len();
    let eq = find_char(l, '=');
    let (dest, rest) = if eq < n {
        (slice(l, 0, eq), slice(l, eq + 1, n))
    } else {
        (Vec::new(), slice(l, 0, n))
    };
    assert(dest@ =~= dest_part(l@));
    assert(rest@ =~= after_dest(l@));
    let m = rest.len();
    let semi = find_char(&rest, ';');
    let comp = slice(&rest, 0, semi);
    let jmp = if semi < m {
        slice(&rest, semi + 1, m)
    } else {
        Vec::new()
    };
    assert(comp@ =~= comp_part(l@));
    assert(jmp@ =~= jump_part(l@));
    encode_compute(&dest, &comp, &jmp)
}

/// Bindings of symbols to addresses; a later binding hides an earlier one.
struct SymbolTable {
    names: Vec<Vec<char>>,
    addrs: Vec<usize>,
}

impl SymbolTable {
    spec fn view(&self) -> Seq<(Seq<char>, nat)> {
        Seq::new(self.names.len() as nat, |i: int| (self.names@[i]@, self.addrs@[i] as nat))
    }

    spec fn wf(&self) -> bool {
        self.names.len() == self.addrs.len()
    }

    fn new() -> (r: SymbolTable)
        ensures
            r.wf(),
            r.view() == predefined(),
    {
        let mut names: Vec<Vec<char>> = Vec::new();
        let mut addrs: Vec<usize> = Vec::new();
    names.push(chars_of("SP"));
    addrs.push(0);
    names.push(chars_of("LCL"));
    addrs.push(1);
    names.push(chars_of("ARG"));
    addrs.push(2);
    names.push(chars_of("THIS"));
    addrs.push(3);
    names.push(chars_of("THAT"));
    addrs.push(4);
    names.push(chars_of("R0"));
    addrs.push(0);
    names.push(chars_of("R1"));
    addrs.push(1);
    names.push(chars_of("R2"));
    addrs.push(2);
    names.push(chars_of("R3"));
    addrs.push(3);
    names.push(chars_of("R4"));
    addrs.push(4);
    names.push(chars_of("R5"));
    addrs.push(5);
    names.push(chars_of("R6"));
    addrs.push(6);
    names.push(chars_of("R7"));
    addrs.push(7);
    names.push(chars_of("R8"));
    addrs.push(8);
    names.push(chars_of("R9"));
    addrs.push(9);
    names.push(chars_of("R10"));
    addrs.push(10);
    names.push(chars_of("R11"));
    addrs.push(11);
    names.push(chars_of("R12"));
    addrs.push(12);
    names.push(chars_of("R13"));
    addrs.push(13);
    names.push(chars_of("R14"));
    addrs.push(14);
    names.push(chars_of("R15"));
    addrs.push(15);
    names.push(chars_of("SCREEN"));
    addrs.push(16384);
    names.push(chars_of("KBD"));
    addrs.push(24576);
        let r = SymbolTable { names, addrs };
        assert(r.view() =~= predefined());
        r
    }

    fn get(&self, k: &Vec<char>) -> (r: Option<usize>)
        requires
            self.wf(),
        ensures
            match r {
                Some(a) => lookup(self.view(), k@) == Some(a as nat),
                None => lookup(self.view(), k@) is None,
            },
    {
        let mut i: usize = self.names.len();
        assert(self.view().take(i as int) =~= self.view());
        while i > 0
            invariant
                self.wf(),
                i <= self.names.len(),
                lookup(self.view(), k@) == lookup(self.view().take(i as int), k@),
            decreases i,
        {
            assert(self.view().take(i as int).drop_last() =~= self.view().take(i - 1));
            i = i - 1;
            if chars_equal(&self.names[i], k) {
                return Some(self.addrs[i]);
            }
        }
        None
    }

    fn bind(&mut self, k: Vec<char>, a: usize)
        requires
            old(self).wf(),
        ensures
            final(self).wf(),
            final(self).view() == old(self).view().push((k@, a as nat)),
    {
        self.names.push(k);
        self.addrs.push(a);
        assert(self.view() =~= old(self).view().push((k@, a as nat)));
    }
}

/// The three mnemonics of `dest=comp;jmp`; an absent part is empty.
#[derive(Debug)]
pub struct CInstruction {
    pub dest: String,
    pub comp: String,
    pub jmp: String,
}

/// An instruction once its symbols are resolved.
#[derive(Debug)]
pub enum Instruction {
    A { address: usize },
    C { instruction: CInstruction },
}

/// The machine word of an instruction, if it has one: an address must fit
/// in 15 bits, and the three mnemonics must be known.
pub open spec fn instruction_word(i: Instruction) -> Option<nat> {
    match i {
        Instruction::A { address } => if address < ADDRESS_LIMIT {
            Some(address as nat)
        } else {
            None
        },
        Instruction::C { instruction } => compute_encoding(
            instruction.dest@,
            instruction.comp@,
            instruction.jmp@,
        ),
    }
}

/// Reads an assembly text and turns it into Hack machine code.
pub struct Assembler {
    source: Vec<char>,
}

impl View for Assembler {
    type V = Seq<char>;

    closed spec fn view(&self) -> Seq<char> {
        self.source@
    }
}

impl Assembler {
    /// An assembler for the text `input`.
    pub fn new(input: &str) -> (r: Assembler)
        ensures
            r@ == input@,
    {
        Assembler { source: chars_of(input) }
    }

    /// The sixteen binary digits of one instruction.
    pub fn get_machine_language_instruction(&self, instruction: Instruction) -> (r: Option<String>)
        ensures
            match r {
                Some(s) => instruction_word(instruction) matches Some(w) && s@ == bin16(w),
                None => instruction_word(instruction) is None,
            },
    {
        let word: u32 = match &instruction {
            Instruction::A { address } => {
                if *address >= 32768 {
                    return None;
                }
                *address as u32
            },
            Instruction::C { instruction } => {
                let dest = chars_of(instruction.dest.as_str());
                let comp = chars_of(instruction.comp.as_str());
                let jmp = chars_of(instruction.jmp.as_str());
                match encode_compute(&dest, &comp, &jmp) {
                    Some(w) => w,
                    None => {
                        return None;
                    },
                }
            },
        };
        let mut out = String::new();
        append_bits(&mut out, word, 16);
        assert(out@ =~= bin16(word as nat));
        Some(out)
    }

    fn cleaned_lines(&self) -> (r: Vec<Vec<char>>)
        ensures
            r@.map_values(|l: Vec<char>| l@) == asm_source(self@),
    {
        let raw = split_chars(&self.source, '\n');
        let ghost rs = raw@.map_values(|l: Vec<char>| l@);
        let mut out: Vec<Vec<char>> = Vec::new();
        let mut i: usize = 0;
        while i < raw.len()
            invariant
                i <= raw.len(),
                rs == raw@.map_values(|l: Vec<char>| l@),
                rs == split_on(self@, '\n'),
                out@.map_values(|l: Vec<char>| l@) == rs.take(i as int).map_values(|l: Seq<char>| clean_asm(l)),
            decreases raw.len() - i,
        {
            let c = clean(&raw[i]);
            let ghost before = out@.map_values(|l: Vec<char>| l@);
            out.push(c);
            assert(out@.map_values(|l: Vec<char>| l@) =~= before.push(c@));
            assert(rs.take(i + 1).map_values(|l: Seq<char>| clean_asm(l)) =~= rs.take(i as int).map_values(|l: Seq<char>| clean_asm(l)).push(clean_asm(rs[i as int])));
            i = i + 1;
        }
        assert(rs.take(i as int) =~= rs);
        out
    }

    /// Assembles the whole text: one line of sixteen binary digits per
    /// instruction, or the first line that is not a valid instruction.
    pub fn assemble(&mut self) -> (r: Result<String, SyntaxError>)
        ensures
            *final(self) == *old(self),
            match r {
                Ok(s) => assemble_words(old(self)@) matches Ok(ws) && s@ == render(ws),
                Err(e) => assemble_words(old(self)@) == Err::<Seq<nat>, nat>(e.line as nat),
            },
    {
        let cls = self.cleaned_lines();
        let ghost cs = cls@.map_values(|l: Vec<char>| l@);
        let mut table = SymbolTable::new();
        let mut pc: usize = 0;
        let mut i: usize = 0;
        assert(cs.take(0) =~= Seq::<Seq<char>>::empty());
        while i < cls.len()
            invariant
                i <= cls.len(),
                cs == cls@.map_values(|l: Vec<char>| l@),
                pc <= i,
                cs == asm_source(old(self)@),
                *self == *old(self),
                table.wf(),
                pass1(cs.take(i as int)) == (table.view(), pc as nat),
            decreases cls.len() - i,
        {
            assert(cs.take(i + 1).drop_last() =~= cs.take(i as int));
            let l = &cls[i];
            match label_name(l) {
                Some(name) => {
                    table.bind(name, pc);
                },
                None => {
                    if l.len() > 0 {
                        pc = pc + 1;
                    }
                },
            }
            i = i + 1;
        }
        assert(cs.take(i as int) =~= cs);
        let ghost t1 = table.view();
        let mut out = String::new();
        let ghost mut ws: Seq<nat> = Seq::empty();
        let mut next: usize = 16;
        i = 0;
        while i < cls.len()
            invariant
                i <= cls.len(),
                cs == cls@.map_values(|l: Vec<char>| l@),
                t1 == pass1(cs).0,
                cs == asm_source(old(self)@),
                *self == *old(self),
                table.wf(),
                next <= ADDRESS_LIMIT,
                pass2(cs.take(i as int), t1) == Ok::<(Seq<nat>, Seq<(Seq<char>, nat)>, nat), nat>((ws, table.view(), next as nat)),
                out@ == render(ws),
            decreases cls.len() - i,
        {
            assert(cs.take(i + 1).drop_last() =~= cs.take(i as int));
            assert(cs.take(i + 1).len() == i + 1);
            let l = &cls[i];
            let bad = SyntaxError { line: i + 1 };
            let word: u32;
            if l.len() == 0 {
                i = i + 1;
                continue;
            }
            match label_name(l) {
                Some(_) => {
                    i = i + 1;
                    continue;
                },
                None => {},
            }
            match operand(l) {
                Some(x) => {
                    match parse_index(&x) {
                        Some(v) => {
                            word = v;
                        },
                        None => {
                            if digits_only(&x) {
                                proof {
                                    assert(x@.len() > 0);
                                }
                                proof {
                                    assert(pass2(cs.take(i + 1), t1) == Err::<(Seq<nat>, Seq<(Seq<char>, nat)>, nat), nat>((i + 1) as nat));
                                    lemma_pass2_error_persists(cs, t1, i + 1);
                                }
                                return Err(bad);
                            }
                            match table.get(&x) {
                                Some(a) => {
                                    if a >= 32768 {
                                        proof {
                                    assert(pass2(cs.take(i + 1), t1) == Err::<(Seq<nat>, Seq<(Seq<char>, nat)>, nat), nat>((i + 1) as nat));
                                    lemma_pass2_error_persists(cs, t1, i + 1);
                                }
                                return Err(bad);
                                    }
                                    word = a as u32;
                                },
                                None => {
                                    if next >= 32768 {
                                        proof {
                                    assert(pass2(cs.take(i + 1), t1) == Err::<(Seq<nat>, Seq<(Seq<char>, nat)>, nat), nat>((i + 1) as nat));
                                    lemma_pass2_error_persists(cs, t1, i + 1);
                                }
                                return Err(bad);
                                    }
                                    word = next as u32;
                                    table.bind(x, next);
                                    next = next + 1;
                                },
                            }
                        },
                    }
                },
                None => {
                    match compute_word(l) {
                        Some(w) => {
                            word = w;
                        },
                        None => {
                            proof {
                                    assert(pass2(cs.take(i + 1), t1) == Err::<(Seq<nat>, Seq<(Seq<char>, nat)>, nat), nat>((i + 1) as nat));
                                    lemma_pass2_error_persists(cs, t1, i + 1);
                                }
                                return Err(bad);
                        },
                    }
                },
            }
            let ghost before = ws;
            append_bits(&mut out, word, 16);
            out.append("\n");
            proof {
                ws = ws.push(word as nat);
                assert(ws.drop_last() =~= before);
            }
            i = i + 1;
        }
        assert(cs.take(i as int) =~= cs);
        Ok(out)
    }
}

proof fn lemma_pass2_error_persists(cls: Seq<Seq<char>>, t0: Seq<(Seq<char>, nat)>, i: int)
    requires
        0 <= i <= cls.len(),
        pass2(cls.take(i), t0) is Err,
    ensures
        pass2(cls, t0) == pass2(cls.take(i), t0),
    decreases cls.len(),
{
    if i == cls.len() {
        assert(cls.take(i) =~= cls);
    } else {
        assert(cls.drop_last().take(i) =~= cls.take(i));
        lemma_pass2_error_persists(cls.drop_last(), t0, i);
    }
}

fn digits_only(s: &Vec<char>) -> (r: bool)
    ensures
        r == all_digits(s@),
{
    let mut i: usize = 0;
    while i < s.len()
        invariant
            i <= s.len(),
            forall|j: int| 0 <= j < i ==> crate::text::is_digit(#[trigger] s@[j]),
        decreases s.len() - i,
    {
        if !('0' <= s[i] && s[i] <= '9') {
            return false;
        }
        i = i + 1;
    }
    true
}

} // verus!
