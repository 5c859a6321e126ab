//! PL/0 programming language.
use vstd::prelude::*;

pub mod ast;
pub mod bytecode;
pub mod codegen;
pub mod codegen_bytecode;
pub mod compiler;
pub mod errors;
pub mod frames;
pub mod grammar;
pub mod laws;
pub mod layout;
pub mod lexer;
pub mod limits;
pub mod machine;
pub mod parser;
pub mod schedule;
pub mod shape;
pub mod symbols;
pub mod text;
pub mod tokens;
pub mod vm;

pub use self::errors::{Error, Result};
pub use self::vm::Vm;

verus! {

/// The number type.
///
/// PL/0 is a tiny language and only has the one value type.
pub type Num = i32;

/// Engine configuration: what the host hands to the machine.
#[derive(Debug)]
pub struct Pl0Config {
    /// The values that `read` statements obtain, in order. When they are used
    /// up, a read obtains zero.
    pub input: Vec<Num>,
    /// How many instructions a run may take before it is stopped.
    pub max_steps: u64,
}

impl Pl0Config {
    /// No input, and as many steps as can be counted.
    pub fn new() -> (config: Self)
        ensures
            config.input@ == Seq::<Num>::empty(),
            config.max_steps == u64::MAX,
    {
        Self { input: Vec::new(), max_steps: u64::MAX }
    }
}

impl Default for Pl0Config {
    fn default() -> (config: Self)
        ensures
            config.input@ == Seq::<Num>::empty(),
            config.max_steps == u64::MAX,
    {
        Self::new()
    }
}

/// A chunk holds an executable program.
#[derive(Debug)]
pub struct Chunk {
    code: Vec<bytecode::Instr>,
}

impl View for Chunk {
    type V = Seq<bytecode::Instr>;

    closed spec fn view(&self) -> Seq<bytecode::Instr> {
        self.code@
    }
}

/// Compiles the source text `text`, which was read from `file`, into a chunk.
///
/// The text is parsed as a program from its start. A text that is no
/// program gives the error of the lexer or the parser, with the span of
/// the token at which it was found. A program that cannot be compiled
/// gives the error of the compiler, about the name that it concerns.
///
/// In the chunk every call and every jump goes to an address in the chunk,
/// and every instruction keeps to the shape of the program: it finds the
/// stack as deep as it needs it, and the frames that it reaches for.
pub fn compile(file: &str, text: &str) -> (r: Result<Chunk>)
    ensures
        match grammar::p_program(lexer::Source::of(text@), 0) {
            Err(f) => r matches Err(e) && parser::reports(e, text@, file@, f),
            Ok((program, _)) => match schedule::program_code(program) {
                Ok(code) => r matches Ok(chunk) && chunk@ == code && shape::shaped(
                    code,
                    layout::program_shape(program),
                ),
                Err(f) => r matches Err(e) && e.is(f.kind, f.subject),
            },
        },
        r matches Ok(chunk) ==> chunk@.len() <= limits::CODE_SIZE && forall|i: int|
            0 <= i < chunk@.len() && (#[trigger] chunk@[i]).is_transfer() ==> chunk@[i].a
                < chunk@.len(),
{
    let lex = lexer::Lexer::new(text, file);
    let mut par = parser::Parser::new(lex);
    let program = par.parse_program()?;
    proof {
        laws::lemma_targets_valid(program@);
        layout::lemma_program_shaped(program@);
    }

    let mut gen = codegen_bytecode::BytecodeGen::new();
    let mut compiler = compiler::Compiler::new(&mut gen);
    assert(compiler.entries() =~= Seq::empty());
    let done = compiler.compile(&program);
    match done {
        Ok(()) => Ok(gen.make_chunk()),
        Err(e) => Err(e),
    }
}

impl Chunk {
    /// The chunk that holds the instructions `code`.
    pub fn new(code: Vec<bytecode::Instr>) -> (chunk: Chunk)
        ensures
            chunk@ == code@,
    {
        Chunk { code }
    }

    /// The instructions of the chunk, in order of their addresses.
    pub fn code(&self) -> (code: &Vec<bytecode::Instr>)
        ensures
            code@ == self@,
    {
        &self.code
    }
}

} // verus!
