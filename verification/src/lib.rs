//! A verified front-end and both back-ends for a tiny stack-based language:
//! whitespace lexing, parsing into a flat instruction sequence, direct
//! simulation against an integer stack, and x86-64 assembly generation.

pub mod codegen;
pub mod lexer;
pub mod parser;
pub mod simulator;
pub mod text;

use vstd::prelude::*;

use crate::lexer::{lex, lex_spec};
use crate::parser::{parse_spec, parse_tokens_as_op, LexError, Op};

verus! {

/// The whole front end in one step: lexes the source bytes and parses the
/// tokens into the program, or reports the first invalid token with its
/// text and 1-based source line.
pub fn load_program(src: &[u8]) -> (r: Result<Vec<Op>, LexError>)
    requires
        src@.len() < usize::MAX,
    ensures
        r matches Ok(p) ==> parse_spec(lex_spec(src@, 0, 1)) == Ok::<Seq<Op>, (nat, Seq<u8>)>(p@),
        r matches Err(e) ==> parse_spec(lex_spec(src@, 0, 1)) == Err::<Seq<Op>, (nat, Seq<u8>)>(
            (e.line as nat, e.token@),
        ),
{
    let tokens = lex(src);
    parse_tokens_as_op(&tokens)
}

/// Reads the argument at `*_index` and advances the cursor by one.
pub fn shift(args: &Vec<String>, _index: &mut usize) -> (r: String)
    requires
        *old(_index) < args.len(),
    ensures
        *final(_index) == *old(_index) + 1,
        r@ == args@[*old(_index) as int]@,
{
    let last_index: usize = *_index;
    *_index += 1;
    args[last_index].clone()
}

} // verus!
