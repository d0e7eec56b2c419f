//! Cleaning of stack-machine source lines: comments go, runs of spaces
//! become one space, and blank lines are dropped.
use vstd::prelude::*;
use crate::text::{chars_of, code_part, comment_start, lemma_comment_bound, lemma_split_nonempty, split_on};

verus! {

pub open spec fn texts(v: Seq<String>) -> Seq<Seq<char>> {
    v.map_values(|s: String| s@)
}

/// The non-empty pieces, in order.
pub open spec fn words(parts: Seq<Seq<char>>) -> Seq<Seq<char>>
    decreases parts.len(),
{
    if parts.len() == 0 {
        Seq::empty()
    } else if parts.last().len() == 0 {
        words(parts.drop_last())
    } else {
        words(parts.drop_last()).push(parts.last())
    }
}

/// Words separated by single spaces.
pub open spec fn join(ws: Seq<Seq<char>>) -> Seq<char>
    decreases ws.len(),
{
    if ws.len() == 0 {
        Seq::empty()
    } else if ws.len() == 1 {
        ws[0]
    } else {
        join(ws.drop_last()) + " "@ + ws.last()
    }
}

/// A line without its comment, its spaces collapsed and trimmed.
pub open spec fn clean_line(l: Seq<char>) -> Seq<char> {
    join(words(split_on(code_part(l), ' ')))
}

/// The cleaned lines that are not empty.
pub open spec fn clean_lines(ls: Seq<Seq<char>>) -> Seq<Seq<char>>
    decreases ls.len(),
{
    if ls.len() == 0 {
        Seq::empty()
    } else if clean_line(ls.last()).len() == 0 {
        clean_lines(ls.drop_last())
    } else {
        clean_lines(ls.drop_last()).push(clean_line(ls.last()))
    }
}

proof fn lemma_join_empty(ws: Seq<Seq<char>>)
    requires
        forall|i: int| 0 <= i < ws.len() ==> (#[trigger] ws[i]).len() > 0,
    ensures
        (join(ws).len() == 0) == (ws.len() == 0),
    decreases ws.len(),
{
    if ws.len() > 1 {
        lemma_join_empty(ws.drop_last());
    }
}

proof fn lemma_words_nonempty(parts: Seq<Seq<char>>)
    ensures
        forall|i: int| 0 <= i < words(parts).len() ==> (#[trigger] words(parts)[i]).len() > 0,
    decreases parts.len(),
{
    if parts.len() > 0 {
        lemma_words_nonempty(parts.drop_last());
        let w = words(parts.drop_last());
        if parts.last().len() > 0 {
            assert forall|i: int| 0 <= i < words(parts).len() implies (#[trigger] words(parts)[i]).len() > 0 by {
                if i < w.len() {
                    assert(words(parts)[i] == w[i]);
                }
            }
        }
    }
}

/// Splits a cleaned command into its words.
pub fn partition_instr(instruction: String) -> (r: Vec<String>)
    ensures
        texts(r@) == split_on(instruction@, ' '),
{
    let s = chars_of(instruction.as_str());
    let mut parts: Vec<String> = Vec::new();
    let mut start: usize = 0;
    let mut i: usize = 0;
    assert(s@.take(0) =~= Seq::<char>::empty());
    assert(s@.subrange(0, 0) =~= Seq::<char>::empty());
    while i < s.len()
        invariant
            s@ == instruction@,
            start <= i <= s.len(),
            texts(parts@).push(s@.subrange(start as int, i as int)) == split_on(s@.take(i as int), ' '),
        decreases s.len() - i,
    {
        proof {
            lemma_split_nonempty(s@.take(i as int), ' ');
            assert(s@.take(i + 1).drop_last() =~= s@.take(i as int));
        }
        let ghost old_parts = texts(parts@);
        if s[i] == ' ' {
            let piece = String::from_str(instruction.as_str().substring_char(start, i));
            assert(piece@ == s@.subrange(start as int, i as int));
            parts.push(piece);
            assert(texts(parts@) =~= old_parts.push(s@.subrange(start as int, i as int)));
            start = i + 1;
            assert(s@.subrange(start as int, i + 1) =~= Seq::<char>::empty());
        } else {
            assert(s@.subrange(start as int, i + 1) =~= s@.subrange(start as int, i as int).push(s@[i as int]));
        }
        i = i + 1;
        assert(texts(parts@).push(s@.subrange(start as int, i as int)) =~= split_on(s@.take(i as int), ' '));
    }
    assert(s@.take(i as int) =~= s@);
    let last = String::from_str(instruction.as_str().substring_char(start, i));
    parts.push(last);
    assert(texts(parts@) =~= split_on(s@, ' '));
    parts
}

/// Cleans one line.
pub fn tidy_line(line: &String) -> (r: String)
    ensures
        r@ == clean_line(line@),
{
    let s = chars_of(line.as_str());
    let cut = comment_start(&s);
    proof {
        lemma_comment_bound(s@, 0);
    }
    let code = String::from_str(line.as_str().substring_char(0, cut));
    assert(code@ =~= code_part(line@));
    let parts = partition_instr(code);
    let ghost ps = texts(parts@);
    let mut out = String::new();
    let mut i: usize = 0;
    while i < parts.len()
        invariant
            i <= parts.len(),
            ps == texts(parts@),
            out@ == join(words(ps.take(i as int))),
        decreases parts.len() - i,
    {
        let ghost before = words(ps.take(i as int));
        proof {
            assert(ps.take(i + 1).drop_last() =~= ps.take(i as int));
            lemma_words_nonempty(ps.take(i as int));
            lemma_join_empty(before);
        }
        let p = &parts[i];
        if p.as_str().unicode_len() > 0 {
            if out.as_str().unicode_len() > 0 {
                out.append(" ");
            }
            out.append(p.as_str());
            assert(words(ps.take(i + 1)) == before.push(p@));
            assert(before.push(p@).drop_last() =~= before);
            assert(out@ =~= join(before.push(p@)));
        }
        i = i + 1;
    }
    assert(ps.take(i as int) =~= ps);
    out
}

/// Drops comments and blank lines, and collapses the spaces of each line.
pub fn remove_comments(contents: Vec<String>) -> (r: Vec<String>)
    ensures
        texts(r@) == clean_lines(texts(contents@)),
{
    let ghost ls = texts(contents@);
    let mut out: Vec<String> = Vec::new();
    let mut i: usize = 0;
    while i < contents.len()
        invariant
            i <= contents.len(),
            ls == texts(contents@),
            texts(out@) == clean_lines(ls.take(i as int)),
        decreases contents.len() - i,
    {
        assert(ls.take(i + 1).drop_last() =~= ls.take(i as int));
        let t = tidy_line(&contents[i]);
        if t.as_str().unicode_len() > 0 {
            let ghost before = texts(out@);
            out.push(t);
            assert(texts(out@) =~= before.push(clean_line(ls[i as int])));
        }
        i = i + 1;
    }
    assert(ls.take(i as int) =~= ls);
    out
}

} // verus!
