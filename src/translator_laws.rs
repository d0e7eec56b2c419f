//! What holds of every translation: how a program starts and ends, and the
//! uniqueness of the labels that comparisons declare.
use vstd::prelude::*;
use crate::commands::{
    bootstrap_asm, call_asm, return_label, compare_labels, comparison_of, end_prefix, false_prefix, true_prefix,
    Comparison,
};
use crate::generate_asm::{end_asm, lower_command, lower_lines, translate_program, translate_unit, Counters};
use crate::text::{dec, lemma_dec_digits, lemma_dec_injective, split_on};

verus! {

/// The output for a whole directory starts with the bootstrap, which
/// sets SP to 256 and then calls `Sys.init` with no arguments, and ends with
/// the trailer.
pub proof fn lemma_program_frame(fs: Seq<(Seq<char>, Seq<Seq<char>>)>)
    requires
        translate_program(fs) is Ok,
    ensures
        ({
            let out = translate_program(fs)->Ok_0;
            &&& out.len() >= 2
            &&& out[0] == bootstrap_asm()
            &&& out.last() == end_asm()
        }),
        bootstrap_asm() == "@256\nD=A\n@SP\nM=D\n"@ + call_asm("Sys.init"@, 0, 0),
{
}

/// The output for one unit ends with the trailer `(END)`, `@END`, `0;JMP`, and
/// starts with the bootstrap exactly when one was asked for.
pub proof fn lemma_unit_frame(lines: Seq<Seq<char>>, file: Seq<char>, boot: bool)
    requires
        translate_unit(lines, file, boot) is Ok,
    ensures
        ({
            let out = translate_unit(lines, file, boot)->Ok_0;
            &&& out.len() >= 1
            &&& out.last() == end_asm()
            &&& end_asm() == "(END)\n"@ + "@END\n0;JMP\n"@
            &&& boot ==> out[0] == bootstrap_asm()
        }),
{
    reveal_strlit("(END)\n@END\n0;JMP\n");
    reveal_strlit("(END)\n");
    reveal_strlit("@END\n0;JMP\n");
    assert(end_asm() =~= "(END)\n"@ + "@END\n0;JMP\n"@);
}

/// The comparison made on line `i`, with the counter value that numbers its labels.
pub open spec fn compare_site(lines: Seq<Seq<char>>, file: Seq<char>, c: Counters, i: int) -> Option<(Comparison, nat)> {
    let toks = split_on(lines[i], ' ');
    if toks.len() == 1 && comparison_of(toks[0]) is Some {
        let k = comparison_of(toks[0])->0;
        Some((k, lower_lines(lines.take(i), file, c)->Ok_0.1.count(k) as nat))
    } else {
        None
    }
}

pub open spec fn label_prefix(k: Comparison, slot: int) -> Seq<char> {
    if slot == 0 {
        true_prefix(k)
    } else if slot == 1 {
        false_prefix(k)
    } else {
        end_prefix(k)
    }
}

proof fn lemma_prefixes_apart(k1: Comparison, s1: int, n1: nat, k2: Comparison, s2: int, n2: nat)
    requires
        0 <= s1 < 3,
        0 <= s2 < 3,
        label_prefix(k1, s1) + dec(n1) == label_prefix(k2, s2) + dec(n2),
    ensures
        k1 == k2,
        s1 == s2,
        n1 == n2,
{
    reveal_strlit("ISEQUAL");
    reveal_strlit("NOTEQUAL");
    reveal_strlit("EQEND");
    reveal_strlit("ISGREATER_GT");
    reveal_strlit("ISLESS_GT");
    reveal_strlit("GTEND");
    reveal_strlit("ISLESS_LT");
    reveal_strlit("ISGREATER_LT");
    reveal_strlit("LTEND");
    lemma_dec_digits(n1);
    lemma_dec_digits(n2);
    let p1 = label_prefix(k1, s1);
    let p2 = label_prefix(k2, s2);
    let x = p1 + dec(n1);
    assert(x == p2 + dec(n2));
    assert(x[0] == p1[0] && x[0] == p2[0]);
    assert(x[2] == p1[2] && x[2] == p2[2]);
    if p1.len() > 7 && p2.len() > 7 {
        assert(x[7] == p1[7] && x[7] == p2[7]);
    }
    if p1.len() > 10 && p2.len() > 10 {
        assert(x[10] == p1[10] && x[10] == p2[10]);
    }
    assert(k1 == k2 && s1 == s2);
    assert(x.skip(p1.len() as int) =~= dec(n1));
    assert((p2 + dec(n2)).skip(p2.len() as int) =~= dec(n2));
    lemma_dec_injective(n1, n2);
}

proof fn lemma_command_counts(toks: Seq<Seq<char>>, file: Seq<char>, c: Counters, k: Comparison)
    requires
        lower_command(toks, file, c) is Ok,
    ensures
        lower_command(toks, file, c)->Ok_0.1.count(k) >= c.count(k),
        toks.len() == 1 && comparison_of(toks[0]) == Some(k) ==> lower_command(toks, file, c)->Ok_0.1.count(k)
            == c.count(k) + 1,
{
}

proof fn lemma_lines_prefix_ok(lines: Seq<Seq<char>>, file: Seq<char>, c: Counters, i: int)
    requires
        0 <= i <= lines.len(),
        lower_lines(lines, file, c) is Ok,
    ensures
        lower_lines(lines.take(i), file, c) is Ok,
    decreases lines.len(),
{
    if i == lines.len() {
        assert(lines.take(i) =~= lines);
    } else {
        assert(lines.drop_last().take(i) =~= lines.take(i));
        lemma_lines_prefix_ok(lines.drop_last(), file, c, i);
    }
}

proof fn lemma_counts_grow(lines: Seq<Seq<char>>, file: Seq<char>, c: Counters, k: Comparison, i: int, j: int)
    requires
        0 <= i <= j <= lines.len(),
        lower_lines(lines, file, c) is Ok,
    ensures
        lower_lines(lines.take(j), file, c)->Ok_0.1.count(k) >= lower_lines(lines.take(i), file, c)->Ok_0.1.count(k),
    decreases j - i,
{
    if i < j {
        lemma_counts_grow(lines, file, c, k, i, j - 1);
        lemma_lines_prefix_ok(lines, file, c, j);
        let lj = lines.take(j);
        assert(lj.drop_last() =~= lines.take(j - 1));
        let prev = lower_lines(lines.take(j - 1), file, c)->Ok_0.1;
        lemma_command_counts(split_on(lj.last(), ' '), file, prev, k);
    }
}

/// No two comparisons of one translation declare the same label.
pub proof fn lemma_comparison_labels_distinct(lines: Seq<Seq<char>>, file: Seq<char>, c: Counters, i: int, j: int, a: int, b: int)
    requires
        lower_lines(lines, file, c) is Ok,
        0 <= i < j < lines.len(),
        compare_site(lines, file, c, i) is Some,
        compare_site(lines, file, c, j) is Some,
        0 <= a < 3,
        0 <= b < 3,
    ensures
        ({
            let (ki, ni) = compare_site(lines, file, c, i)->0;
            let (kj, nj) = compare_site(lines, file, c, j)->0;
            compare_labels(ki, ni)[a] != compare_labels(kj, nj)[b]
        }),
{
    let (ki, ni) = compare_site(lines, file, c, i)->0;
    let (kj, nj) = compare_site(lines, file, c, j)->0;
    if ki == kj {
        lemma_lines_prefix_ok(lines, file, c, i + 1);
        let li = lines.take(i + 1);
        assert(li.drop_last() =~= lines.take(i));
        assert(li.last() == lines[i]);
        let before = lower_lines(lines.take(i), file, c)->Ok_0.1;
        lemma_lines_prefix_ok(lines, file, c, i);
        lemma_command_counts(split_on(lines[i], ' '), file, before, ki);
        lemma_counts_grow(lines, file, c, ki, i + 1, j);
        assert(nj > ni);
    }
    if compare_labels(ki, ni)[a] == compare_labels(kj, nj)[b] {
        assert(compare_labels(ki, ni)[a] == label_prefix(ki, a) + dec(ni));
        assert(compare_labels(kj, nj)[b] == label_prefix(kj, b) + dec(nj));
        lemma_prefixes_apart(ki, a, ni, kj, b, nj);
    }
}

/// The labels that the block of one command declares, written `(NAME)` in it.
pub open spec fn command_labels(toks: Seq<Seq<char>>, c: Counters) -> Seq<Seq<char>> {
    if toks.len() == 1 && comparison_of(toks[0]) is Some {
        compare_labels(comparison_of(toks[0])->0, c.count(comparison_of(toks[0])->0) as nat)
    } else if toks.len() == 2 && toks[0] == "label"@ {
        seq![toks[1]]
    } else if toks.len() == 3 && toks[0] == "call"@ {
        seq![return_label(toks[1], c.call as nat)]
    } else if toks.len() == 3 && toks[0] == "function"@ {
        seq![toks[1]]
    } else {
        Seq::empty()
    }
}

/// Unless the program itself declares `label END` or `function END`, no
/// command's block declares `END`: the trailer's `(END)` is the only one.
pub proof fn lemma_end_declared_once(lines: Seq<Seq<char>>, file: Seq<char>, c: Counters, i: int)
    requires
        lower_lines(lines, file, c) is Ok,
        0 <= i < lines.len(),
        !(split_on(lines[i], ' ').len() == 2 && split_on(lines[i], ' ')[0] == "label"@
            && split_on(lines[i], ' ')[1] == "END"@),
        !(split_on(lines[i], ' ').len() == 3 && split_on(lines[i], ' ')[0] == "function"@
            && split_on(lines[i], ' ')[1] == "END"@),
    ensures
        !command_labels(split_on(lines[i], ' '), lower_lines(lines.take(i), file, c)->Ok_0.1).contains("END"@),
        end_asm().take(6) == "(END)\n"@,
{
    reveal_strlit("END");
    reveal_strlit("(END)\n@END\n0;JMP\n");
    reveal_strlit("(END)\n");
    reveal_strlit("_RETURN_");
    reveal_strlit("ISEQUAL");
    reveal_strlit("NOTEQUAL");
    reveal_strlit("EQEND");
    reveal_strlit("ISGREATER_GT");
    reveal_strlit("ISLESS_GT");
    reveal_strlit("GTEND");
    reveal_strlit("ISLESS_LT");
    reveal_strlit("ISGREATER_LT");
    reveal_strlit("LTEND");
    assert(end_asm().take(6) =~= "(END)\n"@);
    let toks = split_on(lines[i], ' ');
    let cc = lower_lines(lines.take(i), file, c)->Ok_0.1;
    let ls = command_labels(toks, cc);
    assert forall|m: int| 0 <= m < ls.len() implies ls[m] != "END"@ by {
        if toks.len() == 1 && comparison_of(toks[0]) is Some {
            let k = comparison_of(toks[0])->0;
            lemma_dec_digits(cc.count(k) as nat);
            assert(ls[m].len() >= 6);
        } else if toks.len() == 3 && toks[0] == "call"@ {
            lemma_dec_digits(cc.call as nat);
            assert(ls[m].len() >= 9);
        }
    }
}

} // verus!
