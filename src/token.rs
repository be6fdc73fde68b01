use vstd::prelude::*;

verus! {

/// One node of the syntax tree.
#[derive(Debug, PartialEq, Eq)]
pub enum Token {
    IncPtr,
    DecPtr,
    IncVal,
    DecVal,
    GetChar,
    PutChar,
    Loop(Vec<Token>),
}

/// The text consumed by a token sequence: one symbol for each leaf, and two
/// brackets around the body of each loop.
pub open spec fn consumed_len(ts: Seq<Token>) -> nat
    decreases ts,
{
    if ts.len() == 0 {
        0
    } else {
        consumed_len(ts.drop_last()) + match ts.last() {
            Token::Loop(body) => 2 + consumed_len(body@),
            _ => 1,
        }
    }
}

/// The number of leaf tokens anywhere in the tree.
pub open spec fn leaf_count(ts: Seq<Token>) -> nat
    decreases ts,
{
    if ts.len() == 0 {
        0
    } else {
        leaf_count(ts.drop_last()) + match ts.last() {
            Token::Loop(body) => leaf_count(body@),
            _ => 1,
        }
    }
}

/// The number of loop tokens anywhere in the tree.
pub open spec fn loop_count(ts: Seq<Token>) -> nat
    decreases ts,
{
    if ts.len() == 0 {
        0
    } else {
        loop_count(ts.drop_last()) + match ts.last() {
            Token::Loop(body) => 1 + loop_count(body@),
            _ => 0,
        }
    }
}

/// A prefix consumes no more than the whole.
proof fn lemma_consumed_len_prefix(ts: Seq<Token>, i: int)
    requires
        0 <= i <= ts.len(),
    ensures
        consumed_len(ts.take(i)) <= consumed_len(ts),
    decreases ts.len(),
{
    if i < ts.len() {
        assert(ts.drop_last().take(i) =~= ts.take(i));
        lemma_consumed_len_prefix(ts.drop_last(), i);
    } else {
        assert(ts.take(i) =~= ts);
    }
}

/// The consumed length counts each leaf once and each loop twice, for its
/// two brackets.
pub proof fn lemma_consumed_len_counts(ts: Seq<Token>)
    ensures
        consumed_len(ts) == leaf_count(ts) + 2 * loop_count(ts),
    decreases ts,
{
    if ts.len() > 0 {
        lemma_consumed_len_counts(ts.drop_last());
        if let Token::Loop(body) = ts.last() {
            lemma_consumed_len_counts(body@);
        }
    }
}

/// Consumed length of a token sequence, the sum over its tokens.
pub fn recursive_len(tokens: &Vec<Token>) -> (r: usize)
    requires
        consumed_len(tokens@) <= usize::MAX,
    ensures
        r == consumed_len(tokens@),
    decreases tokens,
{
    let mut sum: usize = 0;
    let mut i: usize = 0;
    while i < tokens.len()
        invariant
            i <= tokens.len(),
            consumed_len(tokens@) <= usize::MAX,
            sum == consumed_len(tokens@.take(i as int)),
        decreases tokens.len() - i,
    {
        proof {
            assert(tokens@.take(i + 1).drop_last() =~= tokens@.take(i as int));
            lemma_consumed_len_prefix(tokens@, i + 1);
        }
        let n: usize = match &tokens[i] {
            Token::Loop(body) => recursive_len(body) + 2,
            _ => 1,
        };
        sum = sum + n;
        i = i + 1;
    }
    proof {
        assert(tokens@.take(tokens.len() as int) =~= tokens@);
    }
    sum
}

} // verus!

verus! {

/// Structural failures of parsing.
#[derive(Debug, Clone, Copy, PartialEq, Eq)]
pub enum ParseError {
    /// A `[` with no `]` that closes it before the end of the input.
    UnmatchedOpenBracket,
    /// A `]` at the outermost level, where no `[` is open.
    UnmatchedCloseBracket,
}

/// The eight command symbols.
pub open spec fn is_command(c: char) -> bool {
    c == '>' || c == '<' || c == '+' || c == '-' || c == ',' || c == '.' || c == '[' || c == ']'
}

/// Every character is a command symbol.
pub open spec fn all_commands(s: Seq<char>) -> bool {
    forall|i: int| 0 <= i < s.len() ==> is_command(#[trigger] s[i])
}

/// The text that a token sequence stands for: each leaf as its symbol, each
/// loop as its body between brackets.
pub open spec fn render(ts: Seq<Token>) -> Seq<char>
    decreases ts,
{
    if ts.len() == 0 {
        Seq::empty()
    } else {
        render(ts.drop_last()) + match ts.last() {
            Token::IncPtr => seq!['>'],
            Token::DecPtr => seq!['<'],
            Token::IncVal => seq!['+'],
            Token::DecVal => seq!['-'],
            Token::GetChar => seq![','],
            Token::PutChar => seq!['.'],
            Token::Loop(body) => seq!['['] + render(body@) + seq![']'],
        }
    }
}

/// Opening brackets minus closing brackets.
pub open spec fn depth(s: Seq<char>) -> int
    decreases s.len(),
{
    if s.len() == 0 {
        0
    } else {
        depth(s.drop_last()) + if s.last() == '[' {
            1int
        } else if s.last() == ']' {
            -1int
        } else {
            0int
        }
    }
}

/// No prefix closes more brackets than it opens.
pub open spec fn well_nested(s: Seq<char>) -> bool {
    forall|k: int| 0 <= k <= s.len() ==> depth(#[trigger] s.take(k)) >= 0
}

/// Every bracket has its partner: no prefix closes more than it opens,
/// and the whole text closes all it opens.
pub open spec fn balanced(s: Seq<char>) -> bool {
    well_nested(s) && depth(s) == 0
}

/// Depth adds up over concatenation.
pub proof fn lemma_depth_concat(x: Seq<char>, y: Seq<char>)
    ensures
        depth(x + y) == depth(x) + depth(y),
    decreases y.len(),
{
    if y.len() == 0 {
        assert(x + y =~= x);
    } else {
        assert((x + y).drop_last() =~= x + y.drop_last());
        lemma_depth_concat(x, y.drop_last());
    }
}

/// Well-nested texts stay well nested when joined.
pub proof fn lemma_well_nested_concat(x: Seq<char>, y: Seq<char>)
    requires
        well_nested(x),
        well_nested(y),
    ensures
        well_nested(x + y),
        depth(x + y) >= depth(x),
{
    assert(x.take(x.len() as int) =~= x);
    assert(y.take(y.len() as int) =~= y);
    lemma_depth_concat(x, y);
    assert forall|k: int| 0 <= k <= (x + y).len() implies depth(#[trigger] (x + y).take(k))
        >= 0 by {
        if k <= x.len() {
            assert((x + y).take(k) =~= x.take(k));
        } else {
            assert((x + y).take(k) =~= x + y.take(k - x.len()));
            lemma_depth_concat(x, y.take(k - x.len()));
        }
    }
}

/// Prefixes of well-nested text are well nested.
pub proof fn lemma_well_nested_prefix(s: Seq<char>, k: int)
    requires
        well_nested(s),
        0 <= k <= s.len(),
    ensures
        well_nested(s.take(k)),
{
    assert forall|j: int| 0 <= j <= k implies depth(#[trigger] s.take(k).take(j)) >= 0 by {
        assert(s.take(k).take(j) =~= s.take(j));
    }
}

/// A single symbol other than `]` is well nested.
pub proof fn lemma_single_well_nested(c: char)
    requires
        c != ']',
    ensures
        well_nested(seq![c]),
        depth(seq![c]) == if c == '[' { 1int } else { 0int },
{
    assert(seq![c].drop_last() =~= Seq::<char>::empty());
    assert(depth(Seq::<char>::empty()) == 0);
    assert(depth(seq![c]) == if c == '[' { 1int } else { 0int });
    assert forall|k: int| 0 <= k <= 1 implies depth(#[trigger] seq![c].take(k)) >= 0 by {
        if k == 0 {
            assert(seq![c].take(k) =~= Seq::<char>::empty());
        } else {
            assert(seq![c].take(k) =~= seq![c]);
        }
    }
}

/// Appending `]` to well-nested text lowers its depth by one, and keeps it
/// well nested only where some bracket is open.
pub proof fn lemma_close(x: Seq<char>)
    requires
        well_nested(x),
    ensures
        depth(x) >= 1 ==> well_nested(x.push(']')),
        depth(x.push(']')) == depth(x) - 1,
        depth(x) == 0 ==> !well_nested(x.push(']')),
{
    assert(x.push(']').drop_last() =~= x);
    assert(x.push(']').take(x.len() + 1int) =~= x.push(']'));
    if depth(x) >= 1 {
        assert forall|k: int| 0 <= k <= x.len() + 1 implies depth(
            #[trigger] x.push(']').take(k),
        ) >= 0 by {
            if k <= x.len() {
                assert(x.push(']').take(k) =~= x.take(k));
            }
        }
    }
}

} // verus!

verus! {

/// The text of a single token.
pub open spec fn token_text(t: Token) -> Seq<char> {
    render(seq![t])
}

/// The text of a nonempty sequence ends with the text of its last token.
pub proof fn lemma_render_last(ts: Seq<Token>)
    requires
        ts.len() > 0,
    ensures
        render(ts) == render(ts.drop_last()) + token_text(ts.last()),
        token_text(ts.last()) == match ts.last() {
            Token::IncPtr => seq!['>'],
            Token::DecPtr => seq!['<'],
            Token::IncVal => seq!['+'],
            Token::DecVal => seq!['-'],
            Token::GetChar => seq![','],
            Token::PutChar => seq!['.'],
            Token::Loop(body) => seq!['['] + render(body@) + seq![']'],
        },
{
    let t = ts.last();
    assert(seq![t].drop_last() =~= Seq::<Token>::empty());
    assert(render(Seq::<Token>::empty()) == Seq::<char>::empty());
    assert(token_text(t) =~= Seq::<char>::empty() + match t {
        Token::IncPtr => seq!['>'],
        Token::DecPtr => seq!['<'],
        Token::IncVal => seq!['+'],
        Token::DecVal => seq!['-'],
        Token::GetChar => seq![','],
        Token::PutChar => seq!['.'],
        Token::Loop(body) => seq!['['] + render(body@) + seq![']'],
    });
}

/// A bracket pair around balanced text is balanced.
pub proof fn lemma_wrap_balanced(b: Seq<char>)
    requires
        balanced(b),
    ensures
        balanced(seq!['['] + b + seq![']']),
{
    lemma_single_well_nested('[');
    lemma_well_nested_concat(seq!['['], b);
    lemma_depth_concat(seq!['['], b);
    lemma_close(seq!['['] + b);
    assert((seq!['['] + b).push(']') =~= seq!['['] + b + seq![']']);
}

/// Rendered trees are balanced.
pub proof fn lemma_render_balanced(ts: Seq<Token>)
    ensures
        balanced(render(ts)),
    decreases ts,
{
    if ts.len() == 0 {
        assert(Seq::<char>::empty().take(0) =~= Seq::<char>::empty());
        assert(depth(Seq::<char>::empty()) == 0);
    } else {
        let p = ts.drop_last();
        lemma_render_balanced(p);
        lemma_render_last(ts);
        let t = token_text(ts.last());
        match ts.last() {
            Token::Loop(body) => {
                lemma_render_balanced(body@);
                lemma_wrap_balanced(render(body@));
            },
            _ => {
                lemma_single_well_nested(t[0]);
                assert(t =~= seq![t[0]]);
            },
        }
        lemma_well_nested_concat(render(p), t);
        lemma_depth_concat(render(p), t);
    }
}

/// Every proper, nonempty suffix of a bracketed balanced text closes more
/// brackets than it opens.
pub proof fn lemma_bracket_suffix(b: Seq<char>, j: int)
    requires
        balanced(b),
        1 <= j <= b.len() + 1,
    ensures
        depth((seq!['['] + b + seq![']']).skip(j)) < 0,
{
    let w = seq!['['] + b + seq![']'];
    assert(w.skip(j) =~= b.skip(j - 1) + seq![']']);
    assert(b =~= b.take(j - 1) + b.skip(j - 1));
    lemma_depth_concat(b.take(j - 1), b.skip(j - 1));
    lemma_depth_concat(b.skip(j - 1), seq![']']);
    assert(seq![']'].drop_last() =~= Seq::<char>::empty());
    assert(depth(Seq::<char>::empty()) == 0);
}

} // verus!
