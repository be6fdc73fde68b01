use vstd::prelude::*;
use crate::filter::chars_of;
use crate::token::{
    all_commands, balanced, consumed_len, depth, is_command, lemma_close, lemma_depth_concat,
    lemma_single_well_nested, lemma_well_nested_concat, lemma_well_nested_prefix, recursive_len,
    render, well_nested, ParseError, Token,
};

verus! {

/// Parses one level of nesting, starting at `start`.
///
/// A nested level (`nested`) ends at the first `]` of its own level: on
/// success the body's consumed length is the offset of that bracket from
/// `start`, so the enclosing level resumes one past it. The outermost level
/// runs to the end of the input and rejects any `]` of its own.
#[verifier::rlimit(30)]
pub fn parse_level(source: &Vec<char>, start: usize, nested: bool) -> (r: Result<
    Vec<Token>,
    ParseError,
>)
    requires
        start <= source.len(),
        all_commands(source@),
    ensures
        ({
            let s = source@.skip(start as int);
            if nested {
                match r {
                    Ok(ts) => {
                        &&& consumed_len(ts@) < s.len()
                        &&& s[consumed_len(ts@) as int] == ']'
                        &&& render(ts@) == s.take(consumed_len(ts@) as int)
                        &&& balanced(s.take(consumed_len(ts@) as int))
                    },
                    Err(e) => e == ParseError::UnmatchedOpenBracket && well_nested(s),
                }
            } else {
                match r {
                    Ok(ts) => render(ts@) == s && balanced(s) && consumed_len(ts@) == s.len(),
                    Err(ParseError::UnmatchedCloseBracket) => !well_nested(s),
                    Err(ParseError::UnmatchedOpenBracket) => well_nested(s) && depth(s) > 0,
                }
            }
        }),
    decreases source.len() - start,
{
    let mut tokens: Vec<Token> = Vec::new();
    let mut i: usize = start;
    proof {
        assert(source@.subrange(start as int, start as int) =~= Seq::<char>::empty());
        assert(Seq::<char>::empty().take(0) =~= Seq::<char>::empty());
        assert(depth(Seq::<char>::empty()) == 0);
    }
    while i < source.len()
        invariant
            start <= i <= source.len(),
            all_commands(source@),
            render(tokens@) == source@.subrange(start as int, i as int),
            consumed_len(tokens@) == i - start,
            balanced(source@.subrange(start as int, i as int)),
        decreases source.len() - i,
    {
        let ghost before = tokens@;
        let ghost a = source@.subrange(start as int, i as int);
        let ch = source[i];
        assert(is_command(source@[i as int]));
        if ch == ']' {
            proof {
                lemma_close(a);
                assert(source@.subrange(start as int, i + 1) =~= a.push(']'));
                let s = source@.skip(start as int);
                assert(s.take(i - start + 1) =~= a.push(']'));
                assert(s.take(i - start) =~= a);
                if well_nested(s) {
                    lemma_well_nested_prefix(s, i - start + 1);
                }
            }
            if nested {
                return Ok(tokens);
            } else {
                return Err(ParseError::UnmatchedCloseBracket);
            }
        }
        if ch == '[' {
            let inner = parse_level(source, i + 1, true);
            match inner {
                Ok(body) => {
                    let ghost m = consumed_len(body@);
                    let ghost t = source@.skip(i + 1);
                    let len = recursive_len(&body);
                    proof {
                        let b = t.take(m as int);
                        lemma_single_well_nested('[');
                        lemma_well_nested_concat(seq!['['], b);
                        lemma_depth_concat(seq!['['], b);
                        lemma_close(seq!['['] + b);
                        let w = (seq!['['] + b).push(']');
                        lemma_well_nested_concat(a, w);
                        lemma_depth_concat(a, w);
                        assert(source@.subrange(start as int, i + 2 + m) =~= a + w);
                    }
                    tokens.push(Token::Loop(body));
                    proof {
                        assert(tokens@.drop_last() =~= before);
                    }
                    i = i + 1 + len + 1;
                },
                Err(e) => {
                    proof {
                        let t = source@.skip(i + 1);
                        let s = source@.skip(start as int);
                        lemma_single_well_nested('[');
                        lemma_well_nested_concat(a, seq!['[']);
                        lemma_depth_concat(a, seq!['[']);
                        lemma_well_nested_concat(a + seq!['['], t);
                        lemma_depth_concat(a + seq!['['], t);
                        assert(t.take(t.len() as int) =~= t);
                        assert(s =~= a + seq!['['] + t);
                    }
                    return Err(e);
                },
            }
        } else {
            let tok = if ch == '>' {
                Token::IncPtr
            } else if ch == '<' {
                Token::DecPtr
            } else if ch == '+' {
                Token::IncVal
            } else if ch == '-' {
                Token::DecVal
            } else if ch == ',' {
                Token::GetChar
            } else {
                Token::PutChar
            };
            proof {
                lemma_single_well_nested(ch);
                lemma_well_nested_concat(a, seq![ch]);
                lemma_depth_concat(a, seq![ch]);
                assert(source@.subrange(start as int, i + 1) =~= a + seq![ch]);
            }
            tokens.push(tok);
            proof {
                assert(tokens@.drop_last() =~= before);
            }
            i = i + 1;
        }
    }
    proof {
        assert(source@.skip(start as int) =~= source@.subrange(start as int, i as int));
    }
    if nested {
        Err(ParseError::UnmatchedOpenBracket)
    } else {
        Ok(tokens)
    }
}

} // verus!

verus! {

/// Parses command text into its syntax tree.
///
/// Succeeds exactly on balanced text, and then the tree renders back to the
/// input. A `]` that closes nothing is reported before an unclosed `[`.
pub fn parse(source: &str) -> (r: Result<Vec<Token>, ParseError>)
    requires
        all_commands(source@),
    ensures
        r is Ok <==> balanced(source@),
        r matches Ok(ts) ==> render(ts@) == source@,
        r matches Ok(ts) ==> consumed_len(ts@) == source@.len() <= usize::MAX,
        r == Err::<Vec<Token>, ParseError>(ParseError::UnmatchedCloseBracket) <==> !well_nested(
            source@,
        ),
        r == Err::<Vec<Token>, ParseError>(ParseError::UnmatchedOpenBracket) <==> (well_nested(
            source@,
        ) && depth(source@) != 0),
{
    let chars = chars_of(source);
    assert(chars@.skip(0) =~= chars@);
    let n = chars.len();
    parse_level(&chars, 0, false)
}

} // verus!
