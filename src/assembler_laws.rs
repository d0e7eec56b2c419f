//! What holds of every assembly: the shape of its output, the encoding of
//! numeric addresses, the precedence of labels, and the stability of an
//! already resolved program.
use vstd::prelude::*;
use crate::assembler::{
    a_operand, asm_source, assemble_words, bin16, bits, is_symbol, is_symbol_char,
    label_of, lookup, pass1, pass2, predefined, render,
};
use crate::text::{all_digits, dec, dec_value, is_digit, lemma_dec_digits, ADDRESS_LIMIT};

verus! {

pub open spec fn two_to(n: nat) -> nat
    decreases n,
{
    if n == 0 {
        1
    } else {
        2 * two_to((n - 1) as nat)
    }
}

/// The number that a string of binary digits denotes, most significant first.
pub open spec fn binary_value(s: Seq<char>) -> nat
    decreases s.len(),
{
    if s.len() == 0 {
        0
    } else {
        2 * binary_value(s.drop_last()) + (if s.last() == '1' { 1nat } else { 0nat })
    }
}

pub open spec fn is_bit(c: char) -> bool {
    c == '0' || c == '1'
}

/// Sixteen binary digits and a newline.
pub open spec fn is_word_line(l: Seq<char>) -> bool {
    l.len() == 17 && l[16] == '\n' && forall|j: int| 0 <= j < 16 ==> is_bit(#[trigger] l[j])
}

/// The `k`-th line of seventeen characters.
pub open spec fn line_at(s: Seq<char>, k: int) -> Seq<char> {
    s.subrange(17 * k, 17 * k + 17)
}

pub proof fn lemma_bits(w: nat, n: nat)
    ensures
        bits(w, n).len() == n,
        forall|j: int| 0 <= j < n ==> is_bit(#[trigger] bits(w, n)[j]),
        w < two_to(n) ==> binary_value(bits(w, n)) == w,
    decreases n,
{
    if n > 0 {
        lemma_bits(w / 2, (n - 1) as nat);
        let b = bits(w, n);
        assert(b.drop_last() =~= bits(w / 2, (n - 1) as nat));
        assert forall|j: int| 0 <= j < n implies is_bit(#[trigger] b[j]) by {
            if j < n - 1 {
                assert(b[j] == bits(w / 2, (n - 1) as nat)[j]);
            }
        }
        if w < two_to(n) {
            assert(w / 2 < two_to((n - 1) as nat));
            assert(w == 2 * (w / 2) + w % 2);
        }
    }
}

proof fn lemma_two_to_16()
    ensures
        two_to(16) == 65536,
{
    reveal_with_fuel(two_to, 17);
}

/// Every line that the assembler writes is sixteen binary digits and a newline.
pub proof fn lemma_render_word_lines(ws: Seq<nat>)
    ensures
        render(ws).len() == 17 * ws.len(),
        forall|k: int| 0 <= k < ws.len() ==> is_word_line(#[trigger] line_at(render(ws), k)),
    decreases ws.len(),
{
    if ws.len() > 0 {
        let p = ws.drop_last();
        lemma_render_word_lines(p);
        lemma_bits(ws.last(), 16);
        reveal_strlit("\n");
        let r = render(ws);
        assert(r == render(p) + bin16(ws.last()) + "\n"@);
        assert forall|k: int| 0 <= k < ws.len() implies is_word_line(#[trigger] line_at(r, k)) by {
            if k < p.len() {
                assert(line_at(r, k) =~= line_at(render(p), k));
            } else {
                assert(line_at(r, k) =~= bin16(ws.last()) + "\n"@);
            }
        }
    }
}

/// An assembled text consists of whole lines of sixteen binary digits.
pub proof fn lemma_output_lines(input: Seq<char>)
    requires
        assemble_words(input) is Ok,
    ensures
        ({
            let out = render(assemble_words(input)->Ok_0);
            &&& out.len() % 17 == 0
            &&& forall|k: int| 0 <= k < out.len() / 17 ==> is_word_line(#[trigger] line_at(out, k))
        }),
{
    let ws = assemble_words(input)->Ok_0;
    lemma_render_word_lines(ws);
    assert(render(ws).len() / 17 == ws.len());
}

/// `@N` for a decimal `N` below 2^15 becomes the word `N`, whose sixteen
/// binary digits read back as `N`.
pub proof fn lemma_numeric_address(cls: Seq<Seq<char>>, t0: Seq<(Seq<char>, nat)>, d: Seq<char>)
    requires
        d.len() > 0,
        all_digits(d),
        dec_value(d) < ADDRESS_LIMIT,
        pass2(cls, t0) is Ok,
    ensures
        a_operand(seq!['@'] + d) == Some(d),
        ({
            let (ws, t, nx) = pass2(cls, t0)->Ok_0;
            pass2(cls.push(seq!['@'] + d), t0) == Ok::<(Seq<nat>, Seq<(Seq<char>, nat)>, nat), nat>((ws.push(dec_value(d)), t, nx))
        }),
        bin16(dec_value(d)).len() == 16,
        binary_value(bin16(dec_value(d))) == dec_value(d),
{
    let l = seq!['@'] + d;
    assert(l.drop_first() =~= d);
    assert(is_symbol(d)) by {
        assert forall|i: int| 0 <= i < d.len() implies is_symbol_char(#[trigger] d[i]) by {
            assert(is_digit(d[i]));
        }
    }
    assert(l[0] == '@');
    let c2 = cls.push(l);
    assert(c2.drop_last() =~= cls);
    lemma_bits(dec_value(d), 16);
    lemma_two_to_16();
}

/// The second pass never rebinds a symbol of its starting table: a label
/// bound in the first pass keeps its address, and no variable takes its name.
pub proof fn lemma_labels_kept(cls: Seq<Seq<char>>, t0: Seq<(Seq<char>, nat)>, k: Seq<char>)
    requires
        pass2(cls, t0) is Ok,
        lookup(t0, k) is Some,
    ensures
        lookup(pass2(cls, t0)->Ok_0.1, k) == lookup(t0, k),
    decreases cls.len(),
{
    if cls.len() > 0 {
        lemma_labels_kept(cls.drop_last(), t0, k);
        let t = pass2(cls.drop_last(), t0)->Ok_0.1;
        let t2 = pass2(cls, t0)->Ok_0.1;
        if t2 != t {
            assert(t2.drop_last() =~= t);
        }
    }
}

/// Every `@X` whose `X` is a label of the program encodes the label's address.
pub proof fn lemma_labels_take_precedence(input: Seq<char>, i: int)
    requires
        assemble_words(input) is Ok,
        0 <= i < asm_source(input).len(),
        a_operand(asm_source(input)[i]) is Some,
        lookup(pass1(asm_source(input)).0, a_operand(asm_source(input)[i])->0) is Some,
        !all_digits(a_operand(asm_source(input)[i])->0),
    ensures
        ({
            let cls = asm_source(input);
            let t1 = pass1(cls).0;
            let before = pass2(cls.take(i), t1)->Ok_0;
            let after = pass2(cls.take(i + 1), t1)->Ok_0;
            after.0 == before.0.push(lookup(t1, a_operand(cls[i])->0)->0)
        }),
{
    let cls = asm_source(input);
    let t1 = pass1(cls).0;
    lemma_prefix_ok(cls, t1, i + 1);
    lemma_prefix_ok(cls, t1, i);
    assert(cls.take(i + 1).drop_last() =~= cls.take(i));
    lemma_labels_kept(cls.take(i), t1, a_operand(cls[i])->0);
    assert(label_of(cls[i]) is None) by {
        assert(cls[i][0] == '@');
    }
}

proof fn lemma_prefix_ok(cls: Seq<Seq<char>>, t0: Seq<(Seq<char>, nat)>, i: int)
    requires
        0 <= i <= cls.len(),
        pass2(cls, t0) is Ok,
    ensures
        pass2(cls.take(i), t0) is Ok,
    decreases cls.len(),
{
    if i == cls.len() {
        assert(cls.take(i) =~= cls);
    } else {
        assert(cls.drop_last().take(i) =~= cls.take(i));
        lemma_prefix_ok(cls.drop_last(), t0, i);
    }
}

/// The resolved form of cleaned lines: blank lines and label declarations
/// dropped, and each `@symbol` replaced by `@` and the address the second
/// pass gives it.
pub open spec fn resolve_lines(cls: Seq<Seq<char>>, t0: Seq<(Seq<char>, nat)>) -> Seq<Seq<char>>
    decreases cls.len(),
{
    if cls.len() == 0 {
        Seq::empty()
    } else {
        let prev = resolve_lines(cls.drop_last(), t0);
        let st = pass2(cls.drop_last(), t0)->Ok_0;
        let l = cls.last();
        if l.len() == 0 || label_of(l) is Some {
            prev
        } else if a_operand(l) is Some && !all_digits(a_operand(l)->0) {
            match lookup(st.1, a_operand(l)->0) {
                Some(a) => prev.push(seq!['@'] + dec(a)),
                None => prev.push(seq!['@'] + dec(st.2)),
            }
        } else {
            prev.push(l)
        }
    }
}

/// A program is resolved when it declares no label and names no symbol.
pub open spec fn is_resolved(cls: Seq<Seq<char>>) -> bool {
    forall|i: int|
        0 <= i < cls.len() ==> {
            &&& (#[trigger] cls[i]).len() > 0
            &&& label_of(cls[i]) is None
            &&& (a_operand(cls[i]) is Some ==> all_digits(a_operand(cls[i])->0))
        }
}

proof fn lemma_numeral_operand(a: nat)
    ensures
        ({
            let l = seq!['@'] + dec(a);
            &&& l.len() > 0
            &&& label_of(l) is None
            &&& a_operand(l) == Some(dec(a))
            &&& all_digits(dec(a))
            &&& dec_value(dec(a)) == a
        }),
{
    lemma_dec_digits(a);
    let l = seq!['@'] + dec(a);
    let d = dec(a);
    assert(l.drop_first() =~= d);
    assert(l[0] == '@');
    assert forall|i: int| 0 <= i < d.len() implies is_symbol_char(#[trigger] d[i]) by {
        assert(is_digit(d[i]));
    }
}

proof fn lemma_resolve_inductive(cls: Seq<Seq<char>>, t0: Seq<(Seq<char>, nat)>, tt: Seq<(Seq<char>, nat)>)
    requires
        pass2(cls, t0) is Ok,
    ensures
        is_resolved(resolve_lines(cls, t0)),
        pass1(resolve_lines(cls, t0)) == (predefined(), pass2(cls, t0)->Ok_0.0.len()),
        pass2(resolve_lines(cls, t0), tt) == Ok::<(Seq<nat>, Seq<(Seq<char>, nat)>, nat), nat>((pass2(cls, t0)->Ok_0.0, tt, 16)),
    decreases cls.len(),
{
    if cls.len() > 0 {
        let p = cls.drop_last();
        lemma_prefix_ok(cls, t0, cls.len() - 1);
        assert(cls.take(cls.len() - 1) =~= p);
        lemma_resolve_inductive(p, t0, tt);
        let prev = resolve_lines(p, t0);
        let st = pass2(p, t0)->Ok_0;
        let l = cls.last();
        let r = resolve_lines(cls, t0);
        if l.len() == 0 || label_of(l) is Some {
        } else {
            let nl = r.last();
            if a_operand(l) is Some && !all_digits(a_operand(l)->0) {
                let a = match lookup(st.1, a_operand(l)->0) {
                    Some(a) => a,
                    None => st.2,
                };
                lemma_numeral_operand(a);
                assert(nl == seq!['@'] + dec(a));
            }
            assert(r.drop_last() =~= prev);
            assert forall|i: int| 0 <= i < r.len() implies {
                &&& (#[trigger] r[i]).len() > 0
                &&& label_of(r[i]) is None
                &&& (a_operand(r[i]) is Some ==> all_digits(a_operand(r[i])->0))
            } by {
                if i < prev.len() {
                    assert(r[i] == prev[i]);
                }
            }
        }
    }
}

/// Assembling the resolved form of a program gives the same words: the
/// resolved form declares no label and names no symbol, so both passes
/// leave it as it is.
pub proof fn lemma_resolution_idempotent(input: Seq<char>)
    requires
        assemble_words(input) is Ok,
    ensures
        ({
            let cls = asm_source(input);
            let r = resolve_lines(cls, pass1(cls).0);
            &&& is_resolved(r)
            &&& pass1(r).0 == predefined()
            &&& pass2(r, pass1(r).0) matches Ok((ws, _, _)) && ws == assemble_words(input)->Ok_0
        }),
{
    let cls = asm_source(input);
    lemma_resolve_inductive(cls, pass1(cls).0, predefined());
}

} // verus!
