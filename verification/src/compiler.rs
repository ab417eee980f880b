//! From source text to a program: the tokenizer, then the assembler.

use vstd::prelude::*;
use crate::assembler::{assemble, compile_to_instrs, AssembleError, Fault};
use crate::instr::Instr;
use crate::lexer::{all_known, first_unknown, scan, tokenize, LexError, Lexeme};

verus! {

/// Why a source text is no program.
#[derive(Debug, Clone, PartialEq, Eq)]
pub enum CompileError {
    /// The text holds a word that is no token.
    Lex(LexError),
    /// The tokens of the text do not make a program.
    Assemble(AssembleError),
}

/// Compiles source text into a program.
///
/// Fails with the first unknown word if the text holds one. Otherwise the
/// result is that of the assembler on the tokens of the text.
pub fn compile(content: &str) -> (r: Result<Vec<Instr>, CompileError>)
    ensures
        r matches Ok(code) ==> all_known(scan(content@)) && assemble(scan(content@)) == Ok::<
            Seq<Instr>,
            Fault,
        >(code@),
        r matches Err(CompileError::Lex(e)) ==> first_unknown(scan(content@), e.index as int)
            && scan(content@)[e.index as int] == Lexeme::Unknown(e.lexeme@),
        r matches Err(CompileError::Assemble(e)) ==> all_known(scan(content@)) && assemble(
            scan(content@),
        ) == Err::<Seq<Instr>, Fault>(e@),
{
    match tokenize(content) {
        Err(e) => Err(CompileError::Lex(e)),
        Ok(tokens) => match compile_to_instrs(tokens.as_slice()) {
            Ok(code) => Ok(code),
            Err(e) => Err(CompileError::Assemble(e)),
        },
    }
}

} // verus!
