use pl0::bytecode::{Instr, Math, OpCode};
use pl0::errors::{ErrorKind, Stage};
use pl0::{Chunk, Pl0Config, Vm};

fn instr(opcode: OpCode, l: u8, a: u16) -> Instr {
    Instr { opcode, l, a }
}

fn op(opcode: OpCode) -> Instr {
    instr(opcode, 0, 0)
}

fn machine(code: Vec<Instr>, input: Vec<i32>) -> Vm {
    let mut vm = Vm::from_config(Pl0Config { input, max_steps: 10_000 });
    vm.load(&Chunk::new(code)).expect("failed to load");
    vm
}

fn eval(code: Vec<Instr>, input: Vec<i32>) -> (Result<(), pl0::Error>, Vm) {
    let mut vm = Vm::from_config(Pl0Config { input, max_steps: 10_000 });
    let r = vm.eval(&Chunk::new(code));
    (r, vm)
}

#[test]
fn test_default_instruction() {
    assert_eq!(Instr::default(), op(OpCode::NoOp));
}

#[test]
fn test_steps() {
    let mut vm = machine(
        vec![
            instr(OpCode::Jump, 0, 1),
            instr(OpCode::IncTop, 0, 4),
            instr(OpCode::Lit, 0, 6),
            instr(OpCode::Store, 0, 3),
            instr(OpCode::Load, 0, 3),
            op(OpCode::Write),
            op(OpCode::Return),
        ],
        vec![],
    );
    assert_eq!((vm.pc(), vm.base(), vm.top()), (0, 1, 0));
    let tick = vm.step(None).unwrap();
    assert!(!tick.halted && tick.wrote.is_none() && !tick.read);
    assert_eq!((vm.pc(), vm.base(), vm.top()), (1, 1, 0));
    vm.step(None).unwrap();
    assert_eq!((vm.pc(), vm.base(), vm.top()), (2, 1, 4));
    vm.step(None).unwrap();
    assert_eq!((vm.pc(), vm.base(), vm.top()), (3, 1, 5));
    vm.step(None).unwrap();
    assert_eq!((vm.pc(), vm.base(), vm.top()), (4, 1, 4));
    vm.step(None).unwrap();
    assert_eq!((vm.pc(), vm.base(), vm.top()), (5, 1, 5));
    let tick = vm.step(None).unwrap();
    assert_eq!(tick.wrote, Some(6));
    assert!(!tick.halted);
    assert_eq!((vm.pc(), vm.base(), vm.top()), (6, 1, 4));
    let tick = vm.step(None).unwrap();
    assert!(tick.halted);
    assert_eq!((vm.pc(), vm.base(), vm.top()), (0, 0, 0));
    // `step` leaves what is written to the host.
    assert!(vm.output().is_empty());
}

#[test]
fn test_step_reads_from_host() {
    let mut vm = machine(
        vec![instr(OpCode::IncTop, 0, 3), op(OpCode::Read), op(OpCode::Write), op(OpCode::Read), op(OpCode::Write)],
        vec![],
    );
    assert!(!vm.wants_input());
    vm.step(None).unwrap();
    assert!(vm.wants_input());
    let tick = vm.step(Some(17)).unwrap();
    assert!(tick.read);
    assert!(!vm.wants_input());
    assert_eq!(vm.step(Some(99)).unwrap().wrote, Some(17));
    assert!(vm.wants_input());
    vm.step(None).unwrap();
    assert_eq!(vm.step(None).unwrap().wrote, Some(0));
}

#[test]
fn test_call_and_return() {
    let code = vec![
        instr(OpCode::Jump, 0, 4),
        // procedure
        instr(OpCode::IncTop, 0, 3),
        instr(OpCode::Lit, 0, 5),
        op(OpCode::Return),
        // main
        instr(OpCode::IncTop, 0, 3),
        instr(OpCode::Call, 0, 1),
        instr(OpCode::Lit, 0, 9),
        op(OpCode::Write),
        op(OpCode::Return),
    ];
    let mut vm = machine(code, vec![]);
    vm.step(None).unwrap();
    vm.step(None).unwrap();
    assert_eq!((vm.pc(), vm.base(), vm.top()), (5, 1, 3));
    vm.step(None).unwrap();
    // The block mark is above the top, and the new frame starts there.
    assert_eq!((vm.pc(), vm.base(), vm.top()), (1, 4, 3));
    vm.step(None).unwrap();
    vm.step(None).unwrap();
    assert_eq!((vm.pc(), vm.base(), vm.top()), (3, 4, 7));
    vm.step(None).unwrap();
    // The frame is popped, with what the procedure left on it.
    assert_eq!((vm.pc(), vm.base(), vm.top()), (6, 1, 3));
}

#[test]
fn test_math_instructions() {
    let cases = [
        (Math::Add, 7, 2, 9),
        (Math::Sub, 7, 2, 5),
        (Math::Mul, 7, 2, 14),
        (Math::Div, 7, 2, 3),
        (Math::Div, -7, 2, -3),
        (Math::Eq, 7, 7, 1),
        (Math::Eq, 7, 2, 0),
        (Math::NotEq, 7, 2, 1),
        (Math::NotEq, 7, 7, 0),
        (Math::Less, 2, 7, 1),
        (Math::Less, 7, 7, 0),
        (Math::LessEq, 7, 7, 1),
        (Math::LessEq, 8, 7, 0),
        (Math::Great, 7, 2, 1),
        (Math::Great, 7, 7, 0),
        (Math::GreatEq, 7, 7, 1),
        (Math::GreatEq, 6, 7, 0),
        (Math::Add, i32::MAX, 1, i32::MIN),
        (Math::Sub, i32::MIN, 1, i32::MAX),
        (Math::Mul, i32::MAX, 2, -2),
        (Math::Div, i32::MIN, -1, i32::MIN),
    ];
    for (math, x, y, expected) in cases {
        let code = vec![
            instr(OpCode::IncTop, 0, 3),
            op(OpCode::Read),
            op(OpCode::Read),
            op(OpCode::Math(math)),
            op(OpCode::Write),
            op(OpCode::Return),
        ];
        let (r, vm) = eval(code, vec![x, y]);
        assert!(r.is_ok());
        assert_eq!(vm.output(), &[expected], "{math:?} {x} {y}");
    }
    let unary = [
        (Math::Neg, 5, -5),
        (Math::Neg, -5, 5),
        (Math::Neg, i32::MIN, i32::MIN),
        (Math::Odd, 5, 1),
        (Math::Odd, 4, 0),
        (Math::Odd, -5, 1),
        (Math::Odd, 0, 0),
    ];
    for (math, x, expected) in unary {
        let code = vec![
            instr(OpCode::IncTop, 0, 3),
            op(OpCode::Read),
            op(OpCode::Math(math)),
            op(OpCode::Write),
            op(OpCode::Return),
        ];
        let (r, vm) = eval(code, vec![x]);
        assert!(r.is_ok());
        assert_eq!(vm.output(), &[expected], "{math:?} {x}");
    }
}

#[test]
fn test_jump_if_zero() {
    let code = |v: u16| {
        vec![
            instr(OpCode::IncTop, 0, 3),
            instr(OpCode::Lit, 0, v),
            instr(OpCode::JumpIfZero, 0, 5),
            instr(OpCode::Lit, 0, 1),
            op(OpCode::Write),
            instr(OpCode::Lit, 0, 2),
            op(OpCode::Write),
            op(OpCode::Return),
        ]
    };
    let (_, vm) = eval(code(0), vec![]);
    assert_eq!(vm.output(), &[2]);
    let (_, vm) = eval(code(3), vec![]);
    assert_eq!(vm.output(), &[1, 2]);
}

#[test]
fn test_static_link() {
    // main calls p, p calls q, q stores into a variable of main.
    let code = vec![
        instr(OpCode::Jump, 0, 9),
        // p, at level 0
        instr(OpCode::Jump, 0, 6),
        // q, at level 1
        instr(OpCode::IncTop, 0, 3),
        instr(OpCode::Lit, 0, 77),
        instr(OpCode::Store, 2, 3),
        op(OpCode::Return),
        // body of p
        instr(OpCode::IncTop, 0, 5),
        instr(OpCode::Call, 0, 2),
        op(OpCode::Return),
        // main
        instr(OpCode::IncTop, 0, 4),
        instr(OpCode::Call, 0, 1),
        instr(OpCode::Load, 0, 3),
        op(OpCode::Write),
        op(OpCode::Return),
    ];
    let (r, vm) = eval(code, vec![]);
    assert!(r.is_ok());
    assert_eq!(vm.output(), &[77]);
    assert_eq!(vm.top(), 0);
}

#[test]
fn test_empty_chunk_halts_by_wrapping() {
    let mut vm = Vm::from_config(Pl0Config { input: vec![], max_steps: 1024 });
    assert!(vm.eval(&Chunk::new(vec![])).is_ok());
    let mut vm = Vm::from_config(Pl0Config { input: vec![], max_steps: 1023 });
    assert_eq!(vm.eval(&Chunk::new(vec![])).unwrap_err().kind(), ErrorKind::StepLimit);
}

#[test]
fn test_chunk_larger_than_code_space() {
    let mut vm = Vm::new();
    let err = vm.eval(&Chunk::new(vec![op(OpCode::NoOp); 1025])).unwrap_err();
    assert_eq!(err.kind(), ErrorKind::CodeTooLarge);
    assert!(vm.eval(&Chunk::new(vec![op(OpCode::NoOp); 1024])).is_ok());
    assert!(vm.load(&Chunk::new(vec![op(OpCode::NoOp); 1025])).is_err());
}

fn fault(code: Vec<Instr>) -> ErrorKind {
    let (r, _) = eval(code, vec![]);
    let err = r.unwrap_err();
    assert_eq!(err.stage(), Stage::Runtime);
    assert_eq!(err.span(), None);
    err.kind()
}

#[test]
fn test_faults() {
    assert_eq!(fault(vec![op(OpCode::Write)]), ErrorKind::StackUnderflow);
    assert_eq!(fault(vec![op(OpCode::Math(Math::Add))]), ErrorKind::StackUnderflow);
    assert_eq!(fault(vec![instr(OpCode::JumpIfZero, 0, 0)]), ErrorKind::StackUnderflow);
    assert_eq!(fault(vec![instr(OpCode::Store, 0, 3)]), ErrorKind::StackUnderflow);
    assert_eq!(fault(vec![instr(OpCode::IncTop, 0, 512)]), ErrorKind::StackOverflow);
    assert_eq!(
        fault(vec![instr(OpCode::IncTop, 0, 511), instr(OpCode::Lit, 0, 1)]),
        ErrorKind::StackOverflow
    );
    assert_eq!(
        fault(vec![instr(OpCode::IncTop, 0, 511), op(OpCode::Read)]),
        ErrorKind::StackOverflow
    );
    assert_eq!(
        fault(vec![instr(OpCode::IncTop, 0, 509), instr(OpCode::Call, 0, 1)]),
        ErrorKind::StackOverflow
    );
    assert_eq!(fault(vec![instr(OpCode::Load, 0, 511)]), ErrorKind::StackOverflow);
    assert_eq!(fault(vec![instr(OpCode::Jump, 0, 1024)]), ErrorKind::InvalidJump);
    assert_eq!(
        fault(vec![instr(OpCode::IncTop, 0, 3), instr(OpCode::Call, 0, 5000)]),
        ErrorKind::InvalidJump
    );
    assert_eq!(
        fault(vec![instr(OpCode::IncTop, 0, 3), instr(OpCode::Lit, 0, 0), instr(OpCode::JumpIfZero, 0, 2000)]),
        ErrorKind::InvalidJump
    );
    assert_eq!(
        fault(vec![
            instr(OpCode::IncTop, 0, 3),
            instr(OpCode::Lit, 0, 1),
            instr(OpCode::Lit, 0, 0),
            op(OpCode::Math(Math::Div)),
        ]),
        ErrorKind::DivisionByZero
    );
    // A return address outside the code space.
    assert_eq!(
        fault(vec![
            instr(OpCode::IncTop, 0, 3),
            instr(OpCode::Lit, 0, 5000),
            instr(OpCode::Store, 0, 2),
            op(OpCode::Return),
        ]),
        ErrorKind::InvalidJump
    );
    // A dynamic link outside the stack.
    assert_eq!(
        fault(vec![
            instr(OpCode::IncTop, 0, 3),
            instr(OpCode::Lit, 0, 600),
            instr(OpCode::Store, 0, 1),
            op(OpCode::Return),
        ]),
        ErrorKind::InvalidFrame
    );
    // A static link outside the stack.
    assert_eq!(
        fault(vec![
            instr(OpCode::IncTop, 0, 3),
            instr(OpCode::Lit, 0, 600),
            instr(OpCode::Store, 0, 0),
            instr(OpCode::Load, 1, 0),
        ]),
        ErrorKind::InvalidFrame
    );
    // A return without a frame.
    assert_eq!(
        fault(vec![
            instr(OpCode::IncTop, 0, 3),
            instr(OpCode::Lit, 0, 1),
            instr(OpCode::Store, 0, 2),
            op(OpCode::Return),
            op(OpCode::Return),
        ]),
        ErrorKind::StackUnderflow
    );
}

#[test]
fn test_outermost_return_halts() {
    let (r, vm) = eval(vec![instr(OpCode::Jump, 0, 1), op(OpCode::Return)], vec![]);
    assert!(r.is_ok());
    assert_eq!((vm.pc(), vm.base(), vm.top()), (0, 0, 0));
}

#[test]
fn test_fault_leaves_machine_as_it_was() {
    let mut vm = machine(vec![instr(OpCode::IncTop, 0, 3), op(OpCode::Math(Math::Div))], vec![]);
    vm.step(None).unwrap();
    let before = (vm.pc(), vm.base(), vm.top());
    let err = vm.step(None).unwrap_err();
    assert_eq!(err.kind(), ErrorKind::DivisionByZero);
    assert_eq!((vm.pc(), vm.base(), vm.top()), before);
}
