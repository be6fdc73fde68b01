use vstd::prelude::*;
use crate::token::{all_commands, is_command};

verus! {

/// The command symbols of `s`, in their order.
pub open spec fn commands_of(s: Seq<char>) -> Seq<char>
    decreases s.len(),
{
    if s.len() == 0 {
        Seq::empty()
    } else if is_command(s.last()) {
        commands_of(s.drop_last()).push(s.last())
    } else {
        commands_of(s.drop_last())
    }
}

/// Relies on String::push: appends one character at the end.
#[verifier::external_body]
pub(crate) fn push_char(s: &mut String, c: char)
    ensures
        final(s)@ == old(s)@.push(c),
{
    s.push(c)
}

/// Whether `c` is one of the eight command symbols.
pub fn is_command_char(c: char) -> (r: bool)
    ensures
        r == is_command(c),
{
    c == '>' || c == '<' || c == '+' || c == '-' || c == ',' || c == '.' || c == '[' || c == ']'
}

/// Keeps the command symbols of `input`, in order, and drops every other
/// character.
pub fn filter_chars(input: &str) -> (r: String)
    ensures
        r@ == commands_of(input@),
{
    let mut out = String::new();
    proof {
        assert(input@.take(input@.len() as int) =~= input@);
    }
    for c in it: input.chars()
        invariant
            it.seq() == input@,
            out@ == commands_of(it.seq().take(it.index() as int)),
    {
        proof {
            let n = it.index() as int;
            assert(it.seq().take(n + 1).drop_last() =~= it.seq().take(n));
        }
        if is_command_char(c) {
            push_char(&mut out, c);
        }
    }
    out
}

/// The characters of a string, in order.
pub fn chars_of(input: &str) -> (r: Vec<char>)
    ensures
        r@ == input@,
{
    let mut v: Vec<char> = Vec::new();
    for c in it: input.chars()
        invariant
            it.seq() == input@,
            v@ == it.seq().take(it.index() as int),
    {
        v.push(c);
    }
    v
}

} // verus!

verus! {

/// What the filter keeps holds command symbols alone, and filtering it a
/// second time changes nothing.
pub proof fn lemma_filter_idempotent(s: Seq<char>)
    ensures
        all_commands(commands_of(s)),
        commands_of(commands_of(s)) == commands_of(s),
    decreases s.len(),
{
    if s.len() > 0 {
        lemma_filter_idempotent(s.drop_last());
        let p = commands_of(s.drop_last());
        if is_command(s.last()) {
            assert(p.push(s.last()).drop_last() =~= p);
        }
    }
}

} // verus!
