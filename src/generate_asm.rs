//! Translation of whole stack-machine programs: one block of assembly per
//! command, label counters threaded through, bootstrap and end trailer.
use vstd::prelude::*;
use crate::commands::{
    arithmetic_command, bootstrap, compare_block, bootstrap_asm, branching_command, call_asm, comparison,
    comparison_of, compare_asm, function_asm, funcall, fundecl, funret, lower_arith,
    lower_branch, lower_pop, lower_push, pop_command, push_command, return_asm, Comparison, VmError,
};
use crate::text::{index_of, same_text, split_on};
use crate::tokenizer::{partition_instr, texts};

verus! {

/// The label counters of one translation run.
#[derive(Clone, Copy, Debug, PartialEq, Eq, Structural)]
pub struct Counters {
    pub eq: u32,
    pub gt: u32,
    pub lt: u32,
    pub call: u32,
}

impl Counters {
    /// Comparison counters start at 0, the call counter at 1.
    pub open spec fn initial() -> Counters {
        Counters { eq: 0, gt: 0, lt: 0, call: 1 }
    }

    pub fn new() -> (r: Counters)
        ensures
            r == Counters::initial(),
    {
        Counters { eq: 0, gt: 0, lt: 0, call: 1 }
    }

    pub open spec fn count(self, k: Comparison) -> u32 {
        match k {
            Comparison::Eq => self.eq,
            Comparison::Gt => self.gt,
            Comparison::Lt => self.lt,
        }
    }

    pub open spec fn bump(self, k: Comparison) -> Counters {
        match k {
            Comparison::Eq => Counters { eq: (self.eq + 1) as u32, ..self },
            Comparison::Gt => Counters { gt: (self.gt + 1) as u32, ..self },
            Comparison::Lt => Counters { lt: (self.lt + 1) as u32, ..self },
        }
    }
}

/// The infinite loop that ends every program.
pub open spec fn end_asm() -> Seq<char> {
    "(END)\n@END\n0;JMP\n"@
}

pub open spec fn with_counters(r: Result<Seq<char>, VmError>, c: Counters) -> Result<(Seq<char>, Counters), VmError> {
    match r {
        Ok(s) => Ok((s, c)),
        Err(e) => Err(e),
    }
}

/// One command, given as its words, with the counters before it.
pub open spec fn lower_command(toks: Seq<Seq<char>>, file: Seq<char>, c: Counters) -> Result<(Seq<char>, Counters), VmError> {
    if toks.len() == 1 {
        let w = toks[0];
        if comparison_of(w) is Some {
            let k = comparison_of(w)->0;
            if c.count(k) == u32::MAX {
                Err(VmError::CounterOverflow)
            } else {
                Ok((compare_asm(k, c.count(k) as nat), c.bump(k)))
            }
        } else if w == "return"@ {
            Ok((return_asm(), c))
        } else {
            match lower_arith(w, 0) {
                Some(s) => Ok((s, c)),
                None => Err(VmError::UnknownCommand),
            }
        }
    } else if toks.len() == 2 {
        match lower_branch(toks[0], toks[1]) {
            Some(s) => Ok((s, c)),
            None => Err(VmError::UnknownCommand),
        }
    } else if toks.len() == 3 {
        if toks[0] == "push"@ {
            with_counters(lower_push(toks[1], toks[2], file), c)
        } else if toks[0] == "pop"@ {
            with_counters(lower_pop(toks[1], toks[2], file), c)
        } else if toks[0] == "call"@ {
            match index_of(toks[2]) {
                None => Err(VmError::InvalidIndex),
                Some(n) => if c.call == u32::MAX {
                    Err(VmError::CounterOverflow)
                } else {
                    Ok((call_asm(toks[1], n, c.call as nat), Counters { call: (c.call + 1) as u32, ..c }))
                },
            }
        } else if toks[0] == "function"@ {
            match index_of(toks[2]) {
                Some(k) => Ok((function_asm(toks[1], k), c)),
                None => Err(VmError::InvalidIndex),
            }
        } else {
            Err(VmError::UnknownCommand)
        }
    } else {
        Err(VmError::UnknownCommand)
    }
}

/// Cleaned lines, in order: the blocks and the counters after them, or the first error.
pub open spec fn lower_lines(lines: Seq<Seq<char>>, file: Seq<char>, c: Counters) -> Result<(Seq<Seq<char>>, Counters), VmError>
    decreases lines.len(),
{
    if lines.len() == 0 {
        Ok((Seq::empty(), c))
    } else {
        match lower_lines(lines.drop_last(), file, c) {
            Err(e) => Err(e),
            Ok((bs, c2)) => match lower_command(split_on(lines.last(), ' '), file, c2) {
                Err(e) => Err(e),
                Ok((b, c3)) => Ok((bs.push(b), c3)),
            },
        }
    }
}

/// A single translation unit: fresh counters, bootstrap when asked, trailer.
pub open spec fn translate_unit(lines: Seq<Seq<char>>, file: Seq<char>, boot: bool) -> Result<Seq<Seq<char>>, VmError> {
    match lower_lines(lines, file, Counters::initial()) {
        Err(e) => Err(e),
        Ok((bs, _)) => Ok((if boot { seq![bootstrap_asm()] } else { Seq::empty() }) + bs + seq![end_asm()]),
    }
}

proof fn lemma_error_persists(lines: Seq<Seq<char>>, file: Seq<char>, c: Counters, i: int, e: VmError)
    requires
        0 <= i <= lines.len(),
        lower_lines(lines.take(i), file, c) == Err::<(Seq<Seq<char>>, Counters), VmError>(e),
    ensures
        lower_lines(lines, file, c) == Err::<(Seq<Seq<char>>, Counters), VmError>(e),
    decreases lines.len(),
{
    if i == lines.len() {
        assert(lines.take(i) =~= lines);
    } else {
        assert(lines.drop_last().take(i) =~= lines.take(i));
        lemma_error_persists(lines.drop_last(), file, c, i, e);
    }
}

/// Lowers one command given as its words.
fn lower_one(toks: &Vec<String>, file: &String, counters: &mut Counters) -> (r: Result<String, VmError>)
    ensures
        match r {
            Ok(s) => lower_command(texts(toks@), file@, *old(counters)) == Ok::<(Seq<char>, Counters), VmError>((s@, *final(counters))),
            Err(e) => lower_command(texts(toks@), file@, *old(counters)) == Err::<(Seq<char>, Counters), VmError>(e),
        },
{
    proof {
        assert forall|j: int| 0 <= j < toks@.len() implies texts(toks@)[j] == toks@[j]@ by {}
    }
    if toks.len() == 1 {
        let w = &toks[0];
        match comparison(w) {
            Some(k) => {
                let n = match k {
                    Comparison::Eq => counters.eq,
                    Comparison::Gt => counters.gt,
                    Comparison::Lt => counters.lt,
                };
                if n == u32::MAX {
                    return Err(VmError::CounterOverflow);
                }
                let r = compare_block(k, n);
                match k {
                    Comparison::Eq => counters.eq = n + 1,
                    Comparison::Gt => counters.gt = n + 1,
                    Comparison::Lt => counters.lt = n + 1,
                }
                Ok(r)
            },
            None => {
                if same_text(w.as_str(), "return") {
                    Ok(funret())
                } else {
                    arithmetic_command(w.clone(), 0)
                }
            },
        }
    } else if toks.len() == 2 {
        branching_command(toks[0].clone(), toks[1].clone())
    } else if toks.len() == 3 {
        if same_text(toks[0].as_str(), "push") {
            push_command(toks[1].clone(), toks[2].clone(), file.clone())
        } else if same_text(toks[0].as_str(), "pop") {
            pop_command(toks[1].clone(), toks[2].clone(), file.clone())
        } else if same_text(toks[0].as_str(), "call") {
            if counters.call == u32::MAX {
                let r = funcall(toks[1].clone(), toks[2].clone(), counters.call);
                return match r {
                    Ok(_) => Err(VmError::CounterOverflow),
                    Err(e) => Err(e),
                };
            }
            let r = funcall(toks[1].clone(), toks[2].clone(), counters.call);
            if r.is_ok() {
                counters.call = counters.call + 1;
            }
            r
        } else if same_text(toks[0].as_str(), "function") {
            fundecl(toks[1].clone(), toks[2].clone())
        } else {
            Err(VmError::UnknownCommand)
        }
    } else {
        Err(VmError::UnknownCommand)
    }
}

/// Lowers cleaned lines in order, threading the counters through.
pub fn translate_lines(lines: &Vec<String>, file: &String, counters: &mut Counters) -> (r: Result<Vec<String>, VmError>)
    ensures
        match r {
            Ok(v) => lower_lines(texts(lines@), file@, *old(counters)) == Ok::<(Seq<Seq<char>>, Counters), VmError>((texts(v@), *final(counters))),
            Err(e) => lower_lines(texts(lines@), file@, *old(counters)) == Err::<(Seq<Seq<char>>, Counters), VmError>(e),
        },
{
    let ghost ls = texts(lines@);
    let ghost c0 = *counters;
    let mut out: Vec<String> = Vec::new();
    let mut i: usize = 0;
    assert(ls.take(0) =~= Seq::<Seq<char>>::empty());
    assert(texts(out@) =~= Seq::<Seq<char>>::empty());
    while i < lines.len()
        invariant
            i <= lines.len(),
            ls == texts(lines@),
            c0 == *old(counters),
            lower_lines(ls.take(i as int), file@, c0) == Ok::<(Seq<Seq<char>>, Counters), VmError>((texts(out@), *counters)),
        decreases lines.len() - i,
    {
        assert(ls.take(i + 1).drop_last() =~= ls.take(i as int));
        assert(ls.take(i + 1).last() == ls[i as int]);
        let toks = partition_instr(lines[i].clone());
        match lower_one(&toks, file, counters) {
            Ok(b) => {
                let ghost before = texts(out@);
                out.push(b);
                assert(texts(out@) =~= before.push(b@));
            },
            Err(e) => {
                proof {
                    lemma_error_persists(ls, file@, c0, i + 1, e);
                }
                return Err(e);
            },
        }
        i = i + 1;
    }
    assert(ls.take(i as int) =~= ls);
    Ok(out)
}

/// Translates one unit of cleaned lines; `filename` names its static variables,
/// and `mult_files` asks for the bootstrap in front.
pub fn translate(contents: Vec<String>, filename: String, mult_files: bool) -> (r: Result<Vec<String>, VmError>)
    ensures
        match r {
            Ok(v) => translate_unit(texts(contents@), filename@, mult_files) == Ok::<Seq<Seq<char>>, VmError>(texts(v@)),
            Err(e) => translate_unit(texts(contents@), filename@, mult_files) == Err::<Seq<Seq<char>>, VmError>(e),
        },
{
    let mut counters = Counters::new();
    let blocks = match translate_lines(&contents, &filename, &mut counters) {
        Ok(b) => b,
        Err(e) => {
            return Err(e);
        },
    };
    let mut out: Vec<String> = Vec::new();
    if mult_files {
        out.push(bootstrap());
    }
    let ghost head = texts(out@);
    let mut i: usize = 0;
    while i < blocks.len()
        invariant
            i <= blocks.len(),
            head == (if mult_files { seq![bootstrap_asm()] } else { Seq::<Seq<char>>::empty() }),
            texts(out@) == head + texts(blocks@).take(i as int),
        decreases blocks.len() - i,
    {
        let ghost before = texts(out@);
        out.push(blocks[i].clone());
        assert(texts(out@) =~= before.push(blocks@[i as int]@));
        assert(texts(blocks@).take(i + 1) =~= texts(blocks@).take(i as int).push(blocks@[i as int]@));
        i = i + 1;
        assert(texts(out@) =~= head + texts(blocks@).take(i as int));
    }
    let ghost before = texts(out@);
    out.push(String::from_str("(END)\n@END\n0;JMP\n"));
    assert(texts(blocks@).take(i as int) =~= texts(blocks@));
    assert(texts(out@) =~= head + texts(blocks@) + seq![end_asm()]);
    Ok(out)
}

/// One source file of a program: its base name and its cleaned lines.
pub struct VmFile {
    pub name: String,
    pub lines: Vec<String>,
}

pub open spec fn file_views(fs: Seq<VmFile>) -> Seq<(Seq<char>, Seq<Seq<char>>)> {
    fs.map_values(|f: VmFile| (f.name@, texts(f.lines@)))
}

/// Files in order, sharing the counters: their blocks, or the first error.
pub open spec fn lower_files(fs: Seq<(Seq<char>, Seq<Seq<char>>)>, c: Counters) -> Result<(Seq<Seq<char>>, Counters), VmError>
    decreases fs.len(),
{
    if fs.len() == 0 {
        Ok((Seq::empty(), c))
    } else {
        match lower_files(fs.drop_last(), c) {
            Err(e) => Err(e),
            Ok((bs, c2)) => match lower_lines(fs.last().1, fs.last().0, c2) {
                Err(e) => Err(e),
                Ok((b2, c3)) => Ok((bs + b2, c3)),
            },
        }
    }
}

/// A whole program: bootstrap, the files' blocks, trailer.
pub open spec fn translate_program(fs: Seq<(Seq<char>, Seq<Seq<char>>)>) -> Result<Seq<Seq<char>>, VmError> {
    match lower_files(fs, Counters::initial()) {
        Err(e) => Err(e),
        Ok((bs, _)) => Ok(seq![bootstrap_asm()] + bs + seq![end_asm()]),
    }
}

proof fn lemma_file_error_persists(fs: Seq<(Seq<char>, Seq<Seq<char>>)>, c: Counters, i: int, e: VmError)
    requires
        0 <= i <= fs.len(),
        lower_files(fs.take(i), c) == Err::<(Seq<Seq<char>>, Counters), VmError>(e),
    ensures
        lower_files(fs, c) == Err::<(Seq<Seq<char>>, Counters), VmError>(e),
    decreases fs.len(),
{
    if i == fs.len() {
        assert(fs.take(i) =~= fs);
    } else {
        assert(fs.drop_last().take(i) =~= fs.take(i));
        lemma_file_error_persists(fs.drop_last(), c, i, e);
    }
}

/// Translates the files of a program, in the order given, behind one bootstrap.
pub fn translate_directory(files: &Vec<VmFile>) -> (r: Result<Vec<String>, VmError>)
    ensures
        match r {
            Ok(v) => translate_program(file_views(files@)) == Ok::<Seq<Seq<char>>, VmError>(texts(v@)),
            Err(e) => translate_program(file_views(files@)) == Err::<Seq<Seq<char>>, VmError>(e),
        },
{
    let ghost fs = file_views(files@);
    let mut counters = Counters::new();
    let mut out: Vec<String> = Vec::new();
    out.push(bootstrap());
    let mut i: usize = 0;
    assert(fs.take(0) =~= Seq::<(Seq<char>, Seq<Seq<char>>)>::empty());
    assert(texts(out@) =~= seq![bootstrap_asm()] + Seq::<Seq<char>>::empty());
    while i < files.len()
        invariant
            i <= files.len(),
            fs == file_views(files@),
            match lower_files(fs.take(i as int), Counters::initial()) {
                Ok((bs, c)) => c == counters && texts(out@) == seq![bootstrap_asm()] + bs,
                Err(_) => false,
            },
        decreases files.len() - i,
    {
        assert(fs.take(i + 1).drop_last() =~= fs.take(i as int));
        assert(fs[i as int] == (files@[i as int].name@, texts(files@[i as int].lines@)));
        let f = &files[i];
        match translate_lines(&f.lines, &f.name, &mut counters) {
            Ok(blocks) => {
                let ghost before = texts(out@);
                let mut j: usize = 0;
                while j < blocks.len()
                    invariant
                        j <= blocks.len(),
                        texts(out@) == before + texts(blocks@).take(j as int),
                    decreases blocks.len() - j,
                {
                    let ghost prev = texts(out@);
                    out.push(blocks[j].clone());
                    assert(texts(out@) =~= prev.push(blocks@[j as int]@));
                    assert(texts(blocks@).take(j + 1) =~= texts(blocks@).take(j as int).push(blocks@[j as int]@));
                    j = j + 1;
                    assert(texts(out@) =~= before + texts(blocks@).take(j as int));
                }
                assert(texts(blocks@).take(j as int) =~= texts(blocks@));
                let ghost prior = lower_files(fs.take(i as int), Counters::initial())->Ok_0;
                assert(texts(out@) =~= seq![bootstrap_asm()] + (prior.0 + texts(blocks@)));
            },
            Err(e) => {
                proof {
                    lemma_file_error_persists(fs, Counters::initial(), i + 1, e);
                }
                return Err(e);
            },
        }
        i = i + 1;
    }
    assert(fs.take(i as int) =~= fs);
    let ghost before = texts(out@);
    out.push(String::from_str("(END)\n@END\n0;JMP\n"));
    assert(texts(out@) =~= before.push(end_asm()));
    let ghost all = lower_files(fs, Counters::initial())->Ok_0;
    assert(texts(out@) =~= seq![bootstrap_asm()] + all.0 + seq![end_asm()]);
    Ok(out)
}

} // verus!
