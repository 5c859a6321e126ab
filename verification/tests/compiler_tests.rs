use pl0::ast::{Block, Expr, Ident, Program, Stmt, SubBlock, Var, WriteStmt};
use pl0::bytecode::{Instr, Math, OpCode};
use pl0::codegen::CodeGen;
use pl0::codegen_bytecode::BytecodeGen;
use pl0::compile;
use pl0::compiler::Compiler;
use pl0::errors::{ErrorKind, Stage};
use pl0::symbols::{find_entry, Entry};

fn instr(opcode: OpCode, l: u8, a: u16) -> Instr {
    Instr { opcode, l, a }
}

fn dump(chunk: &pl0::Chunk) {
    for (idx, instr) in chunk.code().iter().enumerate() {
        println!(" {idx:04} {instr:?}");
    }
}

#[test]
fn test_scope() {
    const SOURCE: &str = r"
var x, y, z;

procedure foobar;
var a, b, c;
begin
    write a+x
end;

begin
    call foobar
end.
    ";
    let chunk = compile("<test>", SOURCE).expect("failed to compile");
    dump(&chunk);
    assert_eq!(
        chunk.code().as_slice(),
        &[
            instr(OpCode::Jump, 0, 8),
            // foobar
            instr(OpCode::Jump, 0, 2),
            instr(OpCode::IncTop, 0, 6),
            instr(OpCode::Load, 0, 3),
            instr(OpCode::Load, 1, 3),
            instr(OpCode::Math(Math::Add), 0, 0),
            instr(OpCode::Write, 0, 0),
            instr(OpCode::Return, 0, 0),
            // main
            instr(OpCode::IncTop, 0, 6),
            instr(OpCode::Call, 0, 1),
            instr(OpCode::Return, 0, 0),
        ]
    );
}

#[test]
fn test_smallest_program() {
    let chunk = compile("<test>", ".").expect("failed to compile");
    assert_eq!(
        chunk.code().as_slice(),
        &[
            instr(OpCode::Jump, 0, 1),
            instr(OpCode::IncTop, 0, 3),
            instr(OpCode::Return, 0, 0),
        ]
    );
}

#[test]
fn test_if_and_while_are_patched() {
    let chunk = compile(
        "<test>",
        "var x; begin if x = 0 then x := 1; while x < 3 do x := x + 1 end.",
    )
    .expect("failed to compile");
    dump(&chunk);
    assert_eq!(
        chunk.code().as_slice(),
        &[
            instr(OpCode::Jump, 0, 1),
            instr(OpCode::IncTop, 0, 4),
            // if x = 0 then x := 1
            instr(OpCode::Load, 0, 3),
            instr(OpCode::Lit, 0, 0),
            instr(OpCode::Math(Math::Eq), 0, 0),
            instr(OpCode::JumpIfZero, 0, 8),
            instr(OpCode::Lit, 0, 1),
            instr(OpCode::Store, 0, 3),
            // while x < 3 do x := x + 1
            instr(OpCode::Load, 0, 3),
            instr(OpCode::Lit, 0, 3),
            instr(OpCode::Math(Math::Less), 0, 0),
            instr(OpCode::JumpIfZero, 0, 17),
            instr(OpCode::Load, 0, 3),
            instr(OpCode::Lit, 0, 1),
            instr(OpCode::Math(Math::Add), 0, 0),
            instr(OpCode::Store, 0, 3),
            instr(OpCode::Jump, 0, 8),
            instr(OpCode::Return, 0, 0),
        ]
    );
}

#[test]
fn test_operators_and_constants() {
    let chunk = compile(
        "<test>",
        "const k = 7; var x; begin read x; x := -x + k - 2 * 3 / 4; if odd x then write +x end.",
    )
    .expect("failed to compile");
    assert_eq!(
        chunk.code().as_slice(),
        &[
            instr(OpCode::Jump, 0, 1),
            instr(OpCode::IncTop, 0, 4),
            instr(OpCode::Read, 0, 0),
            instr(OpCode::Store, 0, 3),
            instr(OpCode::Load, 0, 3),
            instr(OpCode::Math(Math::Neg), 0, 0),
            instr(OpCode::Lit, 0, 7),
            instr(OpCode::Math(Math::Add), 0, 0),
            instr(OpCode::Lit, 0, 2),
            instr(OpCode::Lit, 0, 3),
            instr(OpCode::Math(Math::Mul), 0, 0),
            instr(OpCode::Lit, 0, 4),
            instr(OpCode::Math(Math::Div), 0, 0),
            instr(OpCode::Math(Math::Sub), 0, 0),
            instr(OpCode::Store, 0, 3),
            instr(OpCode::Load, 0, 3),
            instr(OpCode::Math(Math::Odd), 0, 0),
            instr(OpCode::JumpIfZero, 0, 20),
            instr(OpCode::Load, 0, 3),
            instr(OpCode::Write, 0, 0),
            instr(OpCode::Return, 0, 0),
        ]
    );
}

#[test]
fn test_comparison_instructions() {
    let ops = [
        ("=", Math::Eq),
        ("#", Math::NotEq),
        ("<", Math::Less),
        ("<=", Math::LessEq),
        (">", Math::Great),
        (">=", Math::GreatEq),
    ];
    for (text, math) in ops {
        let source = format!("if 1 {text} 2 then write 1.");
        let chunk = compile("<test>", &source).expect("failed to compile");
        assert_eq!(chunk.code()[4], instr(OpCode::Math(math), 0, 0));
    }
}

#[test]
fn test_literal_keeps_low_16_bits() {
    let chunk = compile("<test>", "write 65543.").expect("failed to compile");
    assert_eq!(chunk.code()[2], instr(OpCode::Lit, 0, 7));
}

#[test]
fn test_shadowing_and_level_delta() {
    let chunk = compile(
        "<test>",
        "var x, y;
         procedure outer;
         var x;
           procedure inner;
           begin x := y; call outer; call inner end;
         begin call inner; x := 1 end;
         begin x := 2; call outer end.",
    )
    .expect("failed to compile");
    dump(&chunk);
    let code = chunk.code();
    // inner: `x` is the one of outer, one level up; `y` is two levels up.
    assert_eq!(code[4], instr(OpCode::Load, 2, 4));
    assert_eq!(code[5], instr(OpCode::Store, 1, 3));
    assert_eq!(code[6], instr(OpCode::Call, 2, 1));
    assert_eq!(code[7], instr(OpCode::Call, 1, 2));
    // outer
    assert_eq!(code[10], instr(OpCode::Call, 0, 2));
    assert_eq!(code[12], instr(OpCode::Store, 0, 3));
    // main: after leaving outer, `x` is the global one again.
    assert_eq!(code[16], instr(OpCode::Store, 0, 3));
    assert_eq!(code[17], instr(OpCode::Call, 0, 1));
}

#[test]
fn test_inner_names_are_dropped() {
    let err = compile("<test>", "procedure p; var q; q := 1; q := 2.").unwrap_err();
    assert_eq!(err.kind(), ErrorKind::Unresolved);
    assert_eq!(err.message(), "unresolved identifier: q");
}

/// Every jump and call of the chunk goes to an address in the chunk.
fn targets_are_valid(chunk: &pl0::Chunk) -> bool {
    let code = chunk.code();
    code.iter().all(|i| match i.opcode {
        OpCode::Call | OpCode::Jump | OpCode::JumpIfZero => (i.a as usize) < code.len(),
        _ => true,
    })
}

#[test]
fn test_targets_are_valid() {
    let sources = [
        ".",
        "begin write 42 end.",
        "var i, s; begin i := 0; s := 0; while i < 5 do begin i := i + 1; s := s + i * i end; write s end.",
        "const k = 7; var x; procedure p; begin x := x + k end; begin x := 0; call p; call p; write x end.",
        "var n; procedure down; begin if n > 0 then begin n := n - 1; call down end end; begin n := 3; call down end.",
        "procedure a; procedure b; procedure c; ; ; ; if 1 = 1 then while 1 = 2 do call a.",
    ];
    for source in sources {
        let chunk = compile("<test>", source).expect("failed to compile");
        assert!(targets_are_valid(&chunk));
        assert!(chunk.code().len() >= 3);
    }
}

fn refusal(text: &str) -> pl0::Error {
    match compile("<test>", text) {
        Ok(_) => panic!("unexpected success"),
        Err(err) => err,
    }
}

#[test]
fn test_assignment_to_constant_is_rejected() {
    let err = refusal("const k = 1; begin k := 2 end.");
    assert_eq!(err.kind(), ErrorKind::ExpectedVarFoundConst);
    assert_eq!(err.stage(), Stage::Compiler);
    assert_eq!(err.message(), "expected variable; found constant: k");
    assert_eq!(err.span(), None);
}

#[test]
fn test_undefined_identifier_is_rejected() {
    let err = refusal("begin write nothing end.");
    assert_eq!(err.kind(), ErrorKind::Unresolved);
    assert_eq!(err.message(), "unresolved identifier: nothing");
    let err = refusal("begin nothing := 1 end.");
    assert_eq!(err.kind(), ErrorKind::Unresolved);
    let err = refusal("begin call nothing end.");
    assert_eq!(err.kind(), ErrorKind::Unresolved);
    let err = refusal("begin read nothing end.");
    assert_eq!(err.kind(), ErrorKind::Unresolved);
}

#[test]
fn test_wrong_kind_references_are_rejected() {
    let err = refusal("procedure p; ; begin p := 1 end.");
    assert_eq!(err.kind(), ErrorKind::ExpectedVarFoundProc);
    let err = refusal("procedure p; ; begin read p end.");
    assert_eq!(err.kind(), ErrorKind::ExpectedVarFoundProc);
    let err = refusal("const k = 1; begin read k end.");
    assert_eq!(err.kind(), ErrorKind::ExpectedVarFoundConst);
    let err = refusal("const k = 1; begin call k end.");
    assert_eq!(err.kind(), ErrorKind::ExpectedProcFoundConst);
    assert_eq!(err.message(), "expected procedure; found constant: k");
    let err = refusal("var v; begin call v end.");
    assert_eq!(err.kind(), ErrorKind::ExpectedProcFoundVar);
    let err = refusal("procedure p; ; begin write p end.");
    assert_eq!(err.kind(), ErrorKind::ProcInExpr);
}

#[test]
fn test_code_space_is_limited() {
    // Two instructions per statement, behind the jump and the frame allocation.
    let fits = format!("begin {} end.", vec!["write 1"; 510].join(";"));
    let chunk = compile("<test>", &fits).expect("failed to compile");
    assert_eq!(chunk.code().len(), 1023);
    let full = format!("begin {} ; write -1 end.", vec!["write 1"; 509].join(";"));
    let chunk = compile("<test>", &full).expect("failed to compile");
    assert_eq!(chunk.code().len(), 1024);
    let over = format!("begin {} end.", vec!["write 1"; 511].join(";"));
    let err = refusal(&over);
    assert_eq!(err.kind(), ErrorKind::CodeTooLarge);
    assert_eq!(err.stage(), Stage::Compiler);
}

/// `depth` procedures, each declared in the one before.
fn nested(depth: usize) -> String {
    let mut text = String::new();
    for i in 0..depth {
        text.push_str(&format!("procedure p{i}; "));
    }
    text.push_str(&"; ".repeat(depth));
    text.push('.');
    text
}

#[test]
fn test_nesting_is_limited() {
    // The body of the 255th procedure is at level 255.
    let chunk = compile("<test>", &nested(255)).expect("failed to compile");
    assert_eq!(chunk.code().len(), 3 * 256);
    let err = refusal(&nested(256));
    assert_eq!(err.kind(), ErrorKind::TooDeep);
    assert_eq!(err.stage(), Stage::Compiler);
}

fn block_with_vars(count: usize) -> Program {
    let vars: Vec<Var> = (0..count).map(|i| Var { ident: Ident { name: format!("v{i}") } }).collect();
    Program {
        block: Block {
            consts: vec![],
            vars,
            procs: vec![],
            stmt: Stmt::SubBlock(SubBlock { stmts: vec![] }),
        },
    }
}

#[test]
fn test_variables_are_limited() {

    let program = block_with_vars(65532);
    let mut gen = BytecodeGen::new();
    let mut compiler = Compiler::new(&mut gen);
    compiler.compile(&program).expect("failed to compile");
    assert_eq!(compiler.table.len(), 65532);
    assert_eq!(compiler.data_offset, 65535);
    let chunk = gen.make_chunk();
    assert_eq!(chunk.code()[1], instr(OpCode::IncTop, 0, 65535));

    let program = block_with_vars(65533);
    let mut gen = BytecodeGen::new();
    let mut compiler = Compiler::new(&mut gen);
    let err = compiler.compile(&program).unwrap_err();
    assert_eq!(err.kind(), ErrorKind::TooManyVars);
}

#[test]
fn test_error_node_is_refused() {

    let program = Program {
        block: Block {
            consts: vec![],
            vars: vec![],
            procs: vec![],
            stmt: Stmt::Write(WriteStmt { expr: Expr::Invalid() }),
        },
    };
    let mut gen = BytecodeGen::new();
    let mut compiler = Compiler::new(&mut gen);
    let err = compiler.compile(&program).unwrap_err();
    assert_eq!(err.kind(), ErrorKind::ErrorNode);
    assert_eq!(err.stage(), Stage::Compiler);
}

#[test]
fn test_emitter() {

    let mut gen = BytecodeGen::new();
    assert_eq!(gen.len(), 0);
    assert_eq!(gen.reserve_jump().unwrap(), 0);
    gen.emit_lit(-1).unwrap();
    gen.emit_load(1, 4).unwrap();
    gen.emit_store(2, 5).unwrap();
    gen.emit_call(3, 6).unwrap();
    gen.emit_inc_top(7).unwrap();
    gen.emit_jump(8).unwrap();
    assert_eq!(gen.reserve_jump_if_zero().unwrap(), 7);
    gen.emit_math_neg().unwrap();
    gen.emit_math_add().unwrap();
    gen.emit_math_sub().unwrap();
    gen.emit_math_mul().unwrap();
    gen.emit_math_div().unwrap();
    gen.emit_math_odd().unwrap();
    gen.emit_math_eq().unwrap();
    gen.emit_math_noteq().unwrap();
    gen.emit_math_lt().unwrap();
    gen.emit_math_gte().unwrap();
    gen.emit_math_gt().unwrap();
    gen.emit_math_lte().unwrap();
    gen.emit_write().unwrap();
    gen.emit_read().unwrap();
    gen.emit_return().unwrap();
    assert_eq!(gen.len(), 23);
    gen.patch_jump(0, 9).unwrap();
    gen.patch_jump(7, 23).unwrap();
    let chunk = gen.make_chunk();
    assert_eq!(gen.len(), 0);
    assert_eq!(
        chunk.code().as_slice(),
        &[
            instr(OpCode::Jump, 0, 9),
            instr(OpCode::Lit, 0, 65535),
            instr(OpCode::Load, 1, 4),
            instr(OpCode::Store, 2, 5),
            instr(OpCode::Call, 3, 6),
            instr(OpCode::IncTop, 0, 7),
            instr(OpCode::Jump, 0, 8),
            instr(OpCode::JumpIfZero, 0, 23),
            instr(OpCode::Math(Math::Neg), 0, 0),
            instr(OpCode::Math(Math::Add), 0, 0),
            instr(OpCode::Math(Math::Sub), 0, 0),
            instr(OpCode::Math(Math::Mul), 0, 0),
            instr(OpCode::Math(Math::Div), 0, 0),
            instr(OpCode::Math(Math::Odd), 0, 0),
            instr(OpCode::Math(Math::Eq), 0, 0),
            instr(OpCode::Math(Math::NotEq), 0, 0),
            instr(OpCode::Math(Math::Less), 0, 0),
            instr(OpCode::Math(Math::GreatEq), 0, 0),
            instr(OpCode::Math(Math::Great), 0, 0),
            instr(OpCode::Math(Math::LessEq), 0, 0),
            instr(OpCode::Write, 0, 0),
            instr(OpCode::Read, 0, 0),
            instr(OpCode::Return, 0, 0),
        ]
    );
}

#[test]
fn test_emitter_is_full_at_code_size() {

    let mut gen = BytecodeGen::new();
    for _ in 0..1024 {
        gen.emit_write().unwrap();
    }
    assert_eq!(gen.emit_write().unwrap_err().kind(), ErrorKind::CodeTooLarge);
    assert_eq!(gen.reserve_jump().unwrap_err().kind(), ErrorKind::CodeTooLarge);
    assert_eq!(gen.len(), 1024);
}

#[test]
fn test_symbol_table() {

    let table = vec![
        Entry::Const { name: "a".to_string(), value: 1 },
        Entry::Var { name: "b".to_string(), level: 0, offset: 3 },
        Entry::Proc { name: "a".to_string(), level: 0, addr: 9 },
        Entry::Var { name: "c".to_string(), level: 1, offset: 3 },
    ];
    assert!(matches!(find_entry(&table, "a"), Some(Entry::Proc { addr: 9, .. })));
    assert!(matches!(find_entry(&table, "b"), Some(Entry::Var { level: 0, offset: 3, .. })));
    assert!(matches!(find_entry(&table, "c"), Some(Entry::Var { level: 1, .. })));
    assert!(find_entry(&table, "d").is_none());
    let mut table = table;
    table.truncate(2);
    assert!(matches!(find_entry(&table, "a"), Some(Entry::Const { value: 1, .. })));
    assert_eq!(table[0].name(), "a");
}

/// By how much the instruction moves the top of the stack.
fn effect(i: &Instr) -> i32 {
    match i.opcode {
        OpCode::NoOp | OpCode::Call | OpCode::Return | OpCode::Jump => 0,
        OpCode::Lit | OpCode::Load | OpCode::Read => 1,
        OpCode::Store | OpCode::JumpIfZero | OpCode::Write => -1,
        OpCode::IncTop => i.a as i32,
        OpCode::Math(Math::Neg) | OpCode::Math(Math::Odd) => 0,
        OpCode::Math(_) => -1,
    }
}

#[test]
fn test_block_code_is_balanced() {
    let sources = [
        "var x; begin x := 1 + 2 * (3 - x); write -x end.",
        "var x; begin read x; if odd x then write x; while x > 0 do x := x - 1 end.",
        "var x; procedure p; x := x + 1; begin call p; call p; write x end.",
    ];
    for source in sources {
        let chunk = compile("<test>", source).expect("failed to compile");
        let code = chunk.code();
        // The outermost block: from the allocation of its frame to its return.
        let entry = code[0].a as usize;
        assert_eq!(code[0].opcode, OpCode::Jump);
        assert_eq!(code[entry], instr(OpCode::IncTop, 0, 4));
        assert_eq!(code[code.len() - 1], instr(OpCode::Return, 0, 0));
        let net: i32 = code[entry + 1..code.len() - 1].iter().map(effect).sum();
        assert_eq!(net, 0);
    }
    // An expression leaves one value, which the write takes.
    let chunk = compile("<test>", "write 1 + 2 * 3 - 4 / 5.").expect("failed to compile");
    let code = chunk.code();
    let net: i32 = code[2..code.len() - 2].iter().map(effect).sum();
    assert_eq!(net, 1);
    assert_eq!(code[code.len() - 2], instr(OpCode::Write, 0, 0));
}
