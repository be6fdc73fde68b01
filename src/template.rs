use vstd::prelude::*;
use vstd::string::*;
use crate::filter::{chars_of, push_char};

verus! {

/// The line of the template where the generated code goes.
pub const TEMPLATE_MARKER: &'static str = ";   code";

/// `s` with every occurrence of `pat`, scanned from the left and without
/// overlap, replaced by `rep`.
pub open spec fn substitute(s: Seq<char>, pat: Seq<char>, rep: Seq<char>) -> Seq<char>
    decreases s.len(),
{
    if pat.len() == 0 || s.len() < pat.len() {
        s
    } else if s.take(pat.len() as int) == pat {
        rep + substitute(s.skip(pat.len() as int), pat, rep)
    } else {
        seq![s[0]] + substitute(s.skip(1), pat, rep)
    }
}

fn occurs_at(t: &Vec<char>, i: usize, m: &Vec<char>) -> (r: bool)
    requires
        i + m.len() <= t.len(),
    ensures
        r == (t@.subrange(i as int, i + m.len()) == m@),
{
    let mut j: usize = 0;
    while j < m.len()
        invariant
            j <= m.len(),
            i + m.len() <= t.len(),
            t@.subrange(i as int, i + j) == m@.take(j as int),
        decreases m.len() - j,
    {
        if t[i + j] != m[j] {
            assert(t@.subrange(i as int, i + m.len())[j as int] != m@[j as int]);
            return false;
        }
        assert(t@.subrange(i as int, i + j + 1) =~= m@.take(j + 1));
        j = j + 1;
    }
    assert(m@.take(m.len() as int) =~= m@);
    true
}

/// Replaces each occurrence of `marker` in `template` by `code`.
#[verifier::rlimit(30)]
pub fn splice(template: &str, marker: &str, code: &str) -> (r: String)
    requires
        marker@.len() > 0,
    ensures
        r@ == substitute(template@, marker@, code@),
{
    let t = chars_of(template);
    let m = chars_of(marker);
    let mut out = String::new();
    let mut i: usize = 0;
    proof {
        assert(t@.skip(0) =~= t@);
    }
    while i < t.len()
        invariant
            i <= t.len(),
            m@ == marker@,
            m@.len() > 0,
            out@ + substitute(t@.skip(i as int), m@, code@) == substitute(t@, m@, code@),
        decreases t.len() - i,
    {
        let ghost rest = t@.skip(i as int);
        if m.len() <= t.len() - i && occurs_at(&t, i, &m) {
            proof {
                assert(rest.take(m@.len() as int) =~= t@.subrange(i as int, i + m.len()));
                assert(rest.skip(m@.len() as int) =~= t@.skip(i + m.len()));
                assert(out@ + code@ + substitute(t@.skip(i + m.len()), m@, code@) =~= out@ + (
                code@ + substitute(t@.skip(i + m.len()), m@, code@)));
            }
            out.append(code);
            i = i + m.len();
        } else {
            proof {
                if rest.len() >= m@.len() {
                    assert(rest.take(m@.len() as int) =~= t@.subrange(i as int, i + m.len()));
                }
                assert(rest.skip(1) =~= t@.skip(i + 1));
                assert(out@.push(t@[i as int]) + substitute(t@.skip(i + 1), m@, code@) =~= out@ + (
                seq![rest[0]] + substitute(t@.skip(i + 1), m@, code@)));
            }
            push_char(&mut out, t[i]);
            i = i + 1;
        }
    }
    proof {
        assert(t@.skip(i as int) =~= Seq::<char>::empty());
        assert(out@ + Seq::<char>::empty() =~= out@);
    }
    out
}

/// Puts the generated `code` in place of the marker line of `template`.
pub fn assemble(template: &str, code: &str) -> (r: String)
    ensures
        r@ == substitute(template@, TEMPLATE_MARKER@, code@),
{
    proof {
        reveal_strlit(";   code");
    }
    splice(template, TEMPLATE_MARKER, code)
}

} // verus!
