//! A small expression language run as bytecode: a lexer turns source text into tokens,
//! a single-pass precedence-climbing compiler turns the tokens into a chunk of
//! instructions and constants, and a stack machine runs the chunk. Every stage reports
//! the first error it meets, with the line, column and length of the source it cites.
//!
//! Numbers are binary64 floating-point numbers. The library carries them as IEEE 754 bit
//! patterns, compares and negates them itself, and leaves reading numerals and
//! arithmetic to functions that the caller supplies.
use vstd::prelude::*;
use crate::compiler::{lemma_compiled_chunk_runs, program};
use crate::lexer::{lex, reads_as, views_of};
use crate::vm::{answered, data_of, run_from, settled, Machine};

pub mod chunk;
pub mod compiler;
pub mod error;
pub mod lexer;
pub mod precedence;
pub mod render;
pub mod value;
pub mod vm;

pub use chunk::{Chunk, OpCode};
pub use compiler::Compiler;
pub use error::Error;
pub use lexer::{Lexer, Token, TokenKind};
pub use precedence::{get_rule, ParseRule, Precedence};
pub use value::{NumOp, Value};
pub use vm::VM;

verus! {

/// A machine with empty stacks and no result.
pub open spec fn cleared() -> Machine {
    Machine { stack: seq![], spans: seq![], result: None }
}

/// Lexes, compiles and runs `src` on `vm`, whose stacks it empties first. Each stage stops
/// the whole at its first error. `read` turns numerals into numbers and `engine` does
/// arithmetic, as for `Lexer::run` and `VM::run`. The compiled chunk always fits the
/// machine, so the run fails only on operands of the wrong types.
pub fn interpret<G: Fn(String) -> u64, F: Fn(NumOp, u64, u64) -> u64>(
    src: &str,
    vm: &mut VM,
    read: &G,
    engine: &F,
) -> (r: Result<(), Error>)
    requires
        src@.len() + 3 < usize::MAX,
        forall|t: String| read.requires((t,)),
        forall|o: NumOp, x: u64, y: u64| engine.requires((o, x, y)),
    ensures
        final(vm).wf(),
        final(vm).is_verbose() == old(vm).is_verbose(),
        forall|num: spec_fn(Seq<char>) -> u64|
            reads_as(*read, num) ==> {
                &&& #[trigger] lex(src@, num) is Err ==> r is Err && r->Err_0@ == lex(src@, num)->Err_0
                &&& lex(src@, num) is Ok ==> exists|tokens: Seq<Token>|
                    #[trigger] views_of(tokens) == lex(src@, num)->Ok_0 && match program(tokens) {
                        Err(e) => r is Err && r->Err_0@ == e,
                        Ok(st) => exists|computed: Seq<u64>|
                            answered(cleared(), st.code, data_of(st.constants), 1, 0, computed, *engine)
                            && final(vm).machine() == settled(cleared(), st.code, data_of(st.constants), 1, 0, computed)
                            && match #[trigger] run_from(cleared(), st.code, data_of(st.constants), 1, 0, computed) {
                                Ok(m) => r is Ok && final(vm).machine() == m,
                                Err(e) => r is Err && r->Err_0@ == e,
                            },
                    }
            },
{
    let mut lexer = Lexer::new(src);
    let lexed = lexer.run(read);
    vm.reset();
    if let Err(e) = lexed {
        return Err(e);
    }
    let ghost views = lexer.token_views();
    let tokens = lexer.into_tokens();
    proof {
        assert(views.subrange(0, views.len() as int) =~= views);
        assert(views_of(tokens@).len() == tokens@.len());
        assert(views[views.len() - 1] == tokens@.last()@);
    }
    let ghost stream = tokens@;
    let mut compiler = Compiler::new(tokens);
    let compiled = compiler.compile();
    if let Err(e) = compiled {
        return Err(e);
    }
    let chunk = compiler.into_chunk();
    proof {
        lemma_compiled_chunk_runs(stream);
    }
    vm.run(chunk, engine)
}

} // verus!
