use vstd::prelude::*;
use vstd::string::*;
use crate::filter::push_char;
use crate::token::{
    balanced, lemma_bracket_suffix, lemma_render_balanced, lemma_render_last, lemma_wrap_balanced,
    loop_count, render, token_text, Token,
};

verus! {

/// The character of a decimal digit.
pub open spec fn digit_char(d: nat) -> char {
    if d == 0 {
        '0'
    } else if d == 1 {
        '1'
    } else if d == 2 {
        '2'
    } else if d == 3 {
        '3'
    } else if d == 4 {
        '4'
    } else if d == 5 {
        '5'
    } else if d == 6 {
        '6'
    } else if d == 7 {
        '7'
    } else if d == 8 {
        '8'
    } else {
        '9'
    }
}

/// The decimal digits of `n`, most significant first, with no leading zero.
pub open spec fn decimal(n: nat) -> Seq<char>
    decreases n,
{
    if n < 10 {
        seq![digit_char(n)]
    } else {
        decimal(n / 10).push(digit_char(n % 10))
    }
}

/// The name of jump label `n`.
pub open spec fn label(n: nat) -> Seq<char> {
    ".L"@ + decimal(n)
}

/// An indented instruction line.
pub open spec fn instr(s: Seq<char>) -> Seq<char> {
    "    "@ + s + "\n"@
}

/// A line that places label `n`.
pub open spec fn label_line(n: nat) -> Seq<char> {
    label(n) + ":\n"@
}

/// The assembly lines for `ts` when the label counter starts at `c`.
///
/// Each loop advances the counter by two to `k`; `k` labels its check and
/// `k + 1` its body. The loop jumps to its check first, the body follows
/// its label, and the check jumps back to the body while the cell is not
/// zero.
pub open spec fn asm_text(c: nat, ts: Seq<Token>) -> Seq<char>
    decreases ts,
{
    if ts.len() == 0 {
        Seq::empty()
    } else {
        let p = ts.drop_last();
        let k = c + 2 * loop_count(p) + 2;
        asm_text(c, p) + match ts.last() {
            Token::IncPtr => instr("inc r8"@),
            Token::DecPtr => instr("dec r8"@),
            Token::IncVal => instr("inc byte [buffer + r8]"@),
            Token::DecVal => instr("dec byte [buffer + r8]"@),
            Token::GetChar => instr("get"@),
            Token::PutChar => instr("put"@),
            Token::Loop(body) => instr("jmp "@ + label(k)) + label_line((k + 1) as nat)
                + asm_text(k, body@) + label_line(k) + instr("loop_check "@ + label(
                (k + 1) as nat,
            )),
        }
    }
}

fn digit_of(d: u64) -> (r: char)
    requires
        d < 10,
    ensures
        r == digit_char(d as nat),
{
    if d == 0 {
        '0'
    } else if d == 1 {
        '1'
    } else if d == 2 {
        '2'
    } else if d == 3 {
        '3'
    } else if d == 4 {
        '4'
    } else if d == 5 {
        '5'
    } else if d == 6 {
        '6'
    } else if d == 7 {
        '7'
    } else if d == 8 {
        '8'
    } else {
        '9'
    }
}

fn push_decimal(s: &mut String, n: u64)
    ensures
        final(s)@ == old(s)@ + decimal(n as nat),
    decreases n,
{
    if n >= 10 {
        push_decimal(s, n / 10);
    }
    push_char(s, digit_of(n % 10));
    proof {
        if n >= 10 {
            assert(final(s)@ =~= old(s)@ + decimal(n as nat));
        } else {
            assert(final(s)@ =~= old(s)@ + decimal(n as nat));
        }
    }
}

fn push_label(s: &mut String, n: u64)
    ensures
        final(s)@ == old(s)@ + label(n as nat),
{
    s.append(".L");
    push_decimal(s, n);
    assert(final(s)@ =~= old(s)@ + label(n as nat));
}

/// A prefix holds no more loops than the whole.
proof fn lemma_loop_count_prefix(ts: Seq<Token>, i: int)
    requires
        0 <= i <= ts.len(),
    ensures
        loop_count(ts.take(i)) <= loop_count(ts),
    decreases ts.len(),
{
    if i < ts.len() {
        assert(ts.drop_last().take(i) =~= ts.take(i));
        lemma_loop_count_prefix(ts.drop_last(), i);
    } else {
        assert(ts.take(i) =~= ts);
    }
}

/// Generates the assembly lines for `tokens`, taking two fresh labels from
/// `loops` for each loop, in the order the loops appear.
#[verifier::rlimit(30)]
pub fn to_asm(loops: &mut u64, tokens: &Vec<Token>) -> (r: String)
    requires
        *old(loops) + 2 * loop_count(tokens@) + 1 <= u64::MAX,
    ensures
        r@ == asm_text(*old(loops) as nat, tokens@),
        *final(loops) == *old(loops) + 2 * loop_count(tokens@),
    decreases tokens,
{
    let ghost c0 = *loops as nat;
    let mut out = String::new();
    let mut i: usize = 0;
    while i < tokens.len()
        invariant
            i <= tokens.len(),
            c0 + 2 * loop_count(tokens@) + 1 <= u64::MAX,
            *loops == c0 + 2 * loop_count(tokens@.take(i as int)),
            out@ == asm_text(c0, tokens@.take(i as int)),
        decreases tokens.len() - i,
    {
        proof {
            assert(tokens@.take(i + 1).drop_last() =~= tokens@.take(i as int));
            lemma_loop_count_prefix(tokens@, i + 1);
        }
        let ghost before = out@;
        match &tokens[i] {
            Token::IncPtr => {
                out.append("    ");
                out.append("inc r8");
                out.append("\n");
            },
            Token::DecPtr => {
                out.append("    ");
                out.append("dec r8");
                out.append("\n");
            },
            Token::IncVal => {
                out.append("    ");
                out.append("inc byte [buffer + r8]");
                out.append("\n");
            },
            Token::DecVal => {
                out.append("    ");
                out.append("dec byte [buffer + r8]");
                out.append("\n");
            },
            Token::GetChar => {
                out.append("    ");
                out.append("get");
                out.append("\n");
            },
            Token::PutChar => {
                out.append("    ");
                out.append("put");
                out.append("\n");
            },
            Token::Loop(body) => {
                *loops = *loops + 2;
                let current = *loops;
                out.append("    ");
                out.append("jmp ");
                push_label(&mut out, current);
                out.append("\n");
                push_label(&mut out, current + 1);
                out.append(":\n");
                let inner = to_asm(loops, body);
                out.append(inner.as_str());
                push_label(&mut out, current);
                out.append(":\n");
                out.append("    ");
                out.append("loop_check ");
                push_label(&mut out, current + 1);
                out.append("\n");
            },
        }
        proof {
            let k = c0 + 2 * loop_count(tokens@.take(i as int)) + 2;
            assert(out@ =~= asm_text(c0, tokens@.take(i + 1)));
        }
        i = i + 1;
    }
    proof {
        assert(tokens@.take(tokens.len() as int) =~= tokens@);
    }
    out
}

} // verus!

verus! {

/// The labels that generation takes for the loops of `ts`, with the counter
/// starting at `c`, in the order it takes them: for each loop its check
/// label and its body label, then those of the loops in its body.
pub open spec fn loop_labels(c: nat, ts: Seq<Token>) -> Seq<nat>
    decreases ts,
{
    if ts.len() == 0 {
        Seq::empty()
    } else {
        let p = ts.drop_last();
        let k = c + 2 * loop_count(p) + 2;
        loop_labels(c, p) + match ts.last() {
            Token::Loop(body) => seq![k, (k + 1) as nat] + loop_labels(k, body@),
            _ => Seq::empty(),
        }
    }
}

/// The labels taken are the consecutive numbers from `c + 2` on.
proof fn lemma_loop_labels_consecutive(c: nat, ts: Seq<Token>)
    ensures
        loop_labels(c, ts) =~= Seq::new(2 * loop_count(ts), |j: int| (c + 2 + j) as nat),
    decreases ts,
{
    if ts.len() > 0 {
        let p = ts.drop_last();
        lemma_loop_labels_consecutive(c, p);
        if let Token::Loop(body) = ts.last() {
            let k = c + 2 * loop_count(p) + 2;
            lemma_loop_labels_consecutive(k, body@);
        }
    }
}

proof fn lemma_digit_char_injective(a: nat, b: nat)
    requires
        a < 10,
        b < 10,
        digit_char(a) == digit_char(b),
    ensures
        a == b,
{
}

/// Decimal texts are nonempty, and numbers from ten on have two digits or more.
proof fn lemma_decimal_len(n: nat)
    ensures
        decimal(n).len() >= 1,
        n >= 10 ==> decimal(n).len() >= 2,
    decreases n,
{
    if n >= 10 {
        lemma_decimal_len(n / 10);
    }
}

/// Different numbers have different decimal texts.
pub proof fn lemma_decimal_injective(a: nat, b: nat)
    requires
        decimal(a) == decimal(b),
    ensures
        a == b,
    decreases a,
{
    lemma_decimal_len(a);
    lemma_decimal_len(b);
    if a < 10 && b < 10 {
        assert(decimal(a) == seq![digit_char(a)]);
        assert(decimal(b) == seq![digit_char(b)]);
        assert(seq![digit_char(a)][0] == digit_char(a));
        assert(seq![digit_char(b)][0] == digit_char(b));
        lemma_digit_char_injective(a, b);
    } else if a >= 10 && b >= 10 {
        assert(decimal(a).last() == digit_char(a % 10));
        assert(decimal(b).last() == digit_char(b % 10));
        lemma_digit_char_injective(a % 10, b % 10);
        assert(decimal(a).drop_last() =~= decimal(a / 10));
        assert(decimal(b).drop_last() =~= decimal(b / 10));
        lemma_decimal_injective(a / 10, b / 10);
    }
}

/// Every label that generation takes is taken once: no two loops, and not
/// the two labels of one loop, share a label or a label name. All of them
/// lie above the counter's starting value and within the range it advances
/// over.
pub proof fn lemma_labels_unique(c: nat, ts: Seq<Token>)
    ensures
        loop_labels(c, ts).len() == 2 * loop_count(ts),
        loop_labels(c, ts).no_duplicates(),
        forall|i: int, j: int|
            0 <= i < j < loop_labels(c, ts).len() ==> label(#[trigger] loop_labels(c, ts)[i])
                != label(#[trigger] loop_labels(c, ts)[j]),
        forall|i: int|
            0 <= i < loop_labels(c, ts).len() ==> c < #[trigger] loop_labels(c, ts)[i] <= c + 2
                * loop_count(ts) + 1,
{
    lemma_loop_labels_consecutive(c, ts);
    let s = loop_labels(c, ts);
    assert forall|i: int, j: int| 0 <= i < j < s.len() implies label(#[trigger] s[i]) != label(
        #[trigger] s[j],
    ) by {
        if label(s[i]) == label(s[j]) {
            reveal_strlit(".L");
            assert(decimal(s[i]) =~= label(s[i]).skip(2));
            assert(decimal(s[j]) =~= label(s[j]).skip(2));
            lemma_decimal_injective(s[i], s[j]);
        }
    }
}

} // verus!

verus! {

/// Two bracketed balanced suffixes of one text have the same length.
proof fn lemma_bracketed_suffixes(r: Seq<char>, x: Seq<char>, y: Seq<char>)
    requires
        balanced(x),
        balanced(y),
        x.len() + 2 <= r.len(),
        y.len() + 2 <= r.len(),
        r.skip(r.len() - x.len() - 2) == seq!['['] + x + seq![']'],
        r.skip(r.len() - y.len() - 2) == seq!['['] + y + seq![']'],
    ensures
        x.len() == y.len(),
{
    let u = seq!['['] + x + seq![']'];
    let v = seq!['['] + y + seq![']'];
    lemma_wrap_balanced(x);
    lemma_wrap_balanced(y);
    if u.len() < v.len() {
        assert(v.skip(v.len() - u.len()) =~= u);
        lemma_bracket_suffix(y, v.len() - u.len());
    } else if v.len() < u.len() {
        assert(u.skip(u.len() - v.len()) =~= v);
        lemma_bracket_suffix(x, u.len() - v.len());
    }
}

/// Trees with the same text end with tokens of the same text.
#[verifier::rlimit(30)]
proof fn lemma_last_text_equal(a: Seq<Token>, b: Seq<Token>)
    requires
        render(a) == render(b),
        a.len() > 0,
        b.len() > 0,
    ensures
        token_text(a.last()) == token_text(b.last()),
        render(a.drop_last()) == render(b.drop_last()),
{
    lemma_render_last(a);
    lemma_render_last(b);
    let r = render(a);
    let ta = token_text(a.last());
    let tb = token_text(b.last());
    assert(ta =~= r.skip(r.len() - ta.len()));
    assert(tb =~= r.skip(r.len() - tb.len()));
    assert(r.last() == ta.last());
    assert(r.last() == tb.last());
    if let Token::Loop(ba) = a.last() {
        if let Token::Loop(bb) = b.last() {
            lemma_render_balanced(ba@);
            lemma_render_balanced(bb@);
            lemma_bracketed_suffixes(r, render(ba@), render(bb@));
        }
    }
    assert(ta.len() == tb.len());
    assert(ta == tb);
    assert(render(a.drop_last()) =~= r.take(r.len() - ta.len()));
    assert(render(b.drop_last()) =~= r.take(r.len() - tb.len()));
}

/// The text of a tree determines the code generated for it: two trees that
/// render to the same text have as many loops and the same assembly lines.
#[verifier::rlimit(30)]
pub proof fn lemma_code_determined_by_text(a: Seq<Token>, b: Seq<Token>, c: nat)
    requires
        render(a) == render(b),
    ensures
        loop_count(a) == loop_count(b),
        asm_text(c, a) == asm_text(c, b),
    decreases a,
{
    if a.len() == 0 {
        if b.len() > 0 {
            lemma_render_last(b);
        }
    } else if b.len() == 0 {
        lemma_render_last(a);
    } else {
        lemma_last_text_equal(a, b);
        lemma_render_last(a);
        lemma_render_last(b);
        let pa = a.drop_last();
        let pb = b.drop_last();
        lemma_code_determined_by_text(pa, pb, c);
        let k = c + 2 * loop_count(pa) + 2;
        let t = token_text(a.last());
        match a.last() {
            Token::Loop(ba) => {
                assert(t.len() >= 2);
                match b.last() {
                    Token::Loop(bb) => {
                        assert(render(ba@) =~= t.subrange(1, t.len() - 1));
                        assert(render(bb@) =~= t.subrange(1, t.len() - 1));
                        lemma_code_determined_by_text(ba@, bb@, k);
                    },
                    _ => {
                        assert(t.len() == 1);
                    },
                }
            },
            _ => {
                assert(t.len() == 1);
                if let Token::Loop(bb) = b.last() {
                    assert(t.len() >= 2);
                } else {
                    assert(t[0] == token_text(b.last())[0]);
                    assert(a.last() == b.last());
                }
            },
        }
    }
}

} // verus!
