use vstd::prelude::*;
use crate::codegen::{asm_text, lemma_code_determined_by_text, to_asm};
use crate::filter::{commands_of, filter_chars, lemma_filter_idempotent};
use crate::parser::parse;
use crate::template::{assemble, substitute, TEMPLATE_MARKER};
use crate::token::{
    balanced, depth, lemma_consumed_len_counts, render, well_nested, ParseError, Token,
};

verus! {

/// Translates source text into assembly text: drops the characters that are
/// not commands, parses the rest, generates code with the label counter
/// starting at zero, and puts that code in place of the marker of
/// `template`. Fails exactly when the commands are not balanced, with the
/// error that `parse` gives for them. On success the code is that of the
/// tree the commands render from, which the commands determine.
pub fn compile(source: &str, template: &str) -> (r: Result<String, ParseError>)
    ensures
        r is Ok <==> balanced(commands_of(source@)),
        r == Err::<String, ParseError>(ParseError::UnmatchedCloseBracket) <==> !well_nested(
            commands_of(source@),
        ),
        r == Err::<String, ParseError>(ParseError::UnmatchedOpenBracket) <==> (well_nested(
            commands_of(source@),
        ) && depth(commands_of(source@)) != 0),
        r matches Ok(text) ==> exists|ts: Seq<Token>|
            #![auto]
            render(ts) == commands_of(source@) && text@ == substitute(
                template@,
                TEMPLATE_MARKER@,
                asm_text(0, ts),
            ),
        r matches Ok(text) ==> forall|ts: Seq<Token>|
            #![auto]
            render(ts) == commands_of(source@) ==> text@ == substitute(
                template@,
                TEMPLATE_MARKER@,
                asm_text(0, ts),
            ),
{
    let commands = filter_chars(source);
    proof {
        lemma_filter_idempotent(source@);
    }
    match parse(commands.as_str()) {
        Ok(tokens) => {
            proof {
                lemma_consumed_len_counts(tokens@);
            }
            let mut loops: u64 = 0;
            let code = to_asm(&mut loops, &tokens);
            let text = assemble(template, code.as_str());
            assert(render(tokens@) == commands_of(source@));
            assert forall|ts: Seq<Token>|
                #![auto]
                render(ts) == commands_of(source@) implies text@ == substitute(
                    template@,
                    TEMPLATE_MARKER@,
                    asm_text(0, ts),
                ) by {
                lemma_code_determined_by_text(tokens@, ts, 0);
            }
            Ok(text)
        },
        Err(e) => Err(e),
    }
}

} // verus!
