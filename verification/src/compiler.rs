//! The front end: from source text to bytecode.
use crate::chunk::Chunk;
use crate::error::DiabloError;
use crate::grammar::{lemma_skip_end, lexical_error};
use crate::scanner::{Scanner, TokenType};
use vstd::prelude::*;
use vstd::string::StringSliceAdditionalSpecFns;

verus! {

/// Compiles a source text.
///
/// The text is scanned token by token up to its end. The first error token
/// ends the compilation with a `CompileError`. No token gives rise to an
/// instruction yet: the chunk of a text without a lexical error is empty.
pub fn compile(source: &str) -> (compiled: Result<Chunk, DiabloError>)
    requires
        source.spec_bytes().len() < usize::MAX,
    ensures
        lexical_error(source.spec_bytes(), 0) <==> compiled is Err,
        compiled is Err ==> compiled == Err::<Chunk, DiabloError>(DiabloError::CompileError),
        compiled matches Ok(chunk) ==> chunk.wf() && chunk.code@.len() == 0
            && chunk.constants@.len() == 0,
{
    let mut scanner = Scanner::new(source);
    let ghost s = source.spec_bytes();
    loop
        invariant
            scanner.wf(),
            scanner.source == source,
            s == source.spec_bytes(),
            lexical_error(s, scanner.current as int) == lexical_error(s, 0),
        decreases s.len() - scanner.current,
    {
        proof {
            lemma_skip_end(s, scanner.current as int);
        }
        let token = scanner.scan_token();
        if token.kind == TokenType::Error {
            return Err(DiabloError::CompileError);
        }
        if token.kind == TokenType::Eof {
            return Ok(Chunk::new());
        }
    }
}

} // verus!
