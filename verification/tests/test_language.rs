use pl0::errors::{ErrorKind, Stage};
use pl0::{Pl0Config, Vm};

/// What the program writes when it reads `input`.
fn run(source: &str, input: &[i32]) -> Vec<i32> {
    let chunk = pl0::compile("<test>", source).expect("failed to compile");
    let mut vm = Vm::from_config(Pl0Config { input: input.to_vec(), max_steps: 1_000_000 });
    vm.eval(&chunk).expect("failed to run");
    assert_eq!(vm.top(), 0);
    assert_eq!(vm.pc(), 0);
    vm.output().clone()
}

#[test]
fn test_hello_world() {
    const SOURCE: &str = "begin\n    write 42\nend.\n";
    let chunk = pl0::compile("hello_world.pas", SOURCE).expect("failed to compile");
    let mut vm = pl0::Vm::new();
    vm.eval(&chunk).expect("failed to run");
    assert_eq!(vm.output(), &[42]);
}

#[test]
fn test_expressions() {
    const SOURCE: &str = "begin
    write 1 + 2 * 3;
    write (1 + 2) * 3;
    write 7 / 2;
    write -7 / 2;
    write 10 - 4 - 3;
    write 100 / 10 / 5;
    write -5 + 3;
    write +5 - 8
end.
";
    let chunk = pl0::compile("expressions.pas", SOURCE).expect("failed to compile");
    let mut vm = pl0::Vm::new();
    vm.eval(&chunk).expect("failed to run");
    assert_eq!(vm.output(), &[7, 9, 3, -3, 3, 2, -2, -3]);
}

#[test]
fn test_procedures() {
    const SOURCE: &str = "var x, depth;

procedure outer;
var y;
    procedure inner;
    var z;
    begin
        z := y + 1;
        x := x + z
    end;
begin
    y := x * 2;
    call inner;
    call inner
end;

procedure countdown;
begin
    if depth > 0 then
    begin
        write depth;
        depth := depth - 1;
        call countdown
    end
end;

begin
    x := 1;
    call outer;
    write x;
    depth := 3;
    call countdown;
    write depth
end.
";
    let chunk = pl0::compile("procedures.pas", SOURCE).expect("failed to compile");
    println!("{:?}", chunk.code());
    let mut vm = pl0::Vm::new();
    vm.eval(&chunk).expect("failed to run");
    assert_eq!(vm.output(), &[7, 3, 2, 1, 0]);
}

#[test]
fn test_conditionals() {
    const SOURCE: &str = "var a, b;
begin
    a := 3;
    b := 5;
    if a < b then write 1;
    if a <= b then write 2;
    if a > b then write 3;
    if a >= b then write 4;
    if a = b then write 5;
    if a # b then write 6;
    if a <= a then write 7;
    if a >= a then write 8;
    if a < a then write 9;
    if a > a then write 10;
    if odd a then write 11;
    if odd b - a then write 12;
    while a < b do
    begin
        write a;
        a := a + 1
    end
end.
";
    let chunk = pl0::compile("conditionals.pas", SOURCE).expect("failed to compile");
    println!("{:?}", chunk.code());
    let mut vm = pl0::Vm::new();
    vm.eval(&chunk).expect("failed to run");
    assert_eq!(vm.output(), &[1, 2, 6, 7, 8, 11, 3, 4]);
}

#[test]
fn test_read() {
    const SOURCE: &str = "var a, b; begin read a; ? b; write a + b; read a; write a end.";
    assert_eq!(run(SOURCE, &[20, 22, 5]), vec![42, 5]);
    // When the input is used up, a read obtains zero.
    assert_eq!(run(SOURCE, &[20, 22]), vec![42, 0]);
    assert_eq!(run(SOURCE, &[]), vec![0, 0]);
}

#[test]
fn test_fibonacci() {
    const SOURCE: &str = "var n, a, b, t;
begin
    read n;
    a := 0;
    b := 1;
    while n > 0 do
    begin
        write a;
        t := a + b;
        a := b;
        b := t;
        n := n - 1
    end
end.";
    assert_eq!(run(SOURCE, &[10]), vec![0, 1, 1, 2, 3, 5, 8, 13, 21, 34]);
}

#[test]
fn test_parse_errors() {
    const SOURCE: &str = "var x;\nbegin\n    x := ;\n    write x\nend.\n";
    match pl0::compile("error.pl0", SOURCE) {
        Ok(_) => panic!("unexpected success (lol)"),
        Err(err) => {
            println!("{}", err.pretty(SOURCE).to_string());
            assert_eq!(err.stage(), Stage::Parser);
            assert_eq!(
                err.kind(),
                ErrorKind::ExpectedFactor { found: pl0::tokens::TokenKind::Semi }
            );
            assert_eq!(err.span(), Some((22, 1)));
            assert_eq!(
                err.pretty(SOURCE).to_string(),
                "parser error: expected identifier, number or parentheses; found semicolon\n --> error.pl0:22\n  | ;\n"
            );
        }
    }
}

#[test]
fn test_write_42() {
    assert_eq!(run("begin write 42 end.", &[]), vec![42]);
}

#[test]
fn test_precedence() {
    assert_eq!(run("begin write 1+2*3 end.", &[]), vec![7]);
}

#[test]
fn test_parentheses() {
    assert_eq!(run("begin write (1+2)*3 end.", &[]), vec![9]);
}

#[test]
fn test_sum_of_squares() {
    assert_eq!(
        run(
            "var i, s; begin i := 0; s := 0; while i < 5 do begin i := i + 1; s := s + i * i end; write s end.",
            &[]
        ),
        vec![55]
    );
}

#[test]
fn test_nested_scope_and_repeated_calls() {
    assert_eq!(
        run(
            "const k = 7; var x; procedure p; begin x := x + k end; begin x := 0; call p; call p; write x end.",
            &[]
        ),
        vec![14]
    );
}

#[test]
fn test_odd() {
    assert_eq!(
        run("var n; begin n := 9; if odd n then write 1; if odd (n - 1) then write 2 end.", &[]),
        vec![1]
    );
    assert_eq!(run("begin if odd (0 - 3) then write 1; if odd 0 then write 2 end.", &[]), vec![1]);
}

#[test]
fn test_recursion_terminates_at_base_case() {
    const SOURCE: &str = "var n, acc;
procedure fact;
begin
    if n > 1 then
    begin
        acc := acc * n;
        n := n - 1;
        call fact
    end
end;
begin
    read n;
    acc := 1;
    call fact;
    write acc
end.";
    assert_eq!(run(SOURCE, &[5]), vec![120]);
    assert_eq!(run(SOURCE, &[1]), vec![1]);
    assert_eq!(run(SOURCE, &[10]), vec![3628800]);
}

#[test]
fn test_same_run_twice() {
    const SOURCE: &str = "var a; begin read a; while a > 0 do begin write a * a; read a end end.";
    let first = run(SOURCE, &[3, 1, 4, 1, 5, 0, 9]);
    let second = run(SOURCE, &[3, 1, 4, 1, 5, 0, 9]);
    assert_eq!(first, vec![9, 1, 16, 1, 25]);
    assert_eq!(first, second);

    // One machine, used twice, starts over.
    let chunk = pl0::compile("<test>", SOURCE).expect("failed to compile");
    let mut vm = Vm::from_config(Pl0Config { input: vec![2, 0], max_steps: 1000 });
    vm.eval(&chunk).expect("failed to run");
    assert_eq!(vm.output(), &[4]);
    vm.eval(&chunk).expect("failed to run");
    assert_eq!(vm.output(), &[4]);
}

#[test]
fn test_arithmetic_wraps() {
    assert_eq!(run("var x; begin read x; write x + 1 end.", &[2147483647]), vec![-2147483648]);
    assert_eq!(run("var x; begin read x; write x - 1 end.", &[-2147483648]), vec![2147483647]);
    assert_eq!(run("var x; begin read x; write x * x end.", &[65536]), vec![0]);
    assert_eq!(run("var x; begin read x; write x * 3 end.", &[2147483647]), vec![2147483645]);
    assert_eq!(run("var x; begin read x; write -x end.", &[-2147483648]), vec![-2147483648]);
    assert_eq!(run("var x; begin read x; write x / (0 - 1) end.", &[-2147483648]), vec![-2147483648]);
}

#[test]
fn test_division_truncates_toward_zero() {
    const SOURCE: &str = "var a, b; begin read a; read b; write a / b end.";
    assert_eq!(run(SOURCE, &[7, 2]), vec![3]);
    assert_eq!(run(SOURCE, &[-7, 2]), vec![-3]);
    assert_eq!(run(SOURCE, &[7, -2]), vec![-3]);
    assert_eq!(run(SOURCE, &[-7, -2]), vec![3]);
    assert_eq!(run(SOURCE, &[0, 5]), vec![0]);
}

#[test]
fn test_large_literal_is_cut_to_16_bits() {
    assert_eq!(run("begin write 65536 + 5 end.", &[]), vec![5]);
    assert_eq!(run("begin write 65535 end.", &[]), vec![65535]);
}

fn run_error(source: &str, max_steps: u64) -> (pl0::Error, Vec<i32>) {
    let chunk = pl0::compile("<test>", source).expect("failed to compile");
    let mut vm = Vm::from_config(Pl0Config { input: vec![], max_steps });
    let err = vm.eval(&chunk).unwrap_err();
    (err, vm.output().clone())
}

#[test]
fn test_division_by_zero() {
    let (err, output) = run_error("var x; begin write 1; write 1 / x; write 2 end.", 1000);
    assert_eq!(err.kind(), ErrorKind::DivisionByZero);
    assert_eq!(err.stage(), Stage::Runtime);
    assert_eq!(err.to_string(), "runtime error: division by zero");
    assert_eq!(output, vec![1]);
}

#[test]
fn test_stack_overflow() {
    let (err, _) = run_error("procedure p; call p; call p.", 1_000_000);
    assert_eq!(err.kind(), ErrorKind::StackOverflow);
}

#[test]
fn test_step_limit() {
    let (err, output) = run_error("var x; while x = 0 do write 1.", 100);
    assert_eq!(err.kind(), ErrorKind::StepLimit);
    // Seven instructions per round, behind the first two.
    assert_eq!(output.len(), 14);
    let (err, _) = run_error("write 1.", 3);
    assert_eq!(err.kind(), ErrorKind::StepLimit);
    let chunk = pl0::compile("<test>", "write 1.").expect("failed to compile");
    let mut vm = Vm::from_config(Pl0Config { input: vec![], max_steps: 5 });
    assert!(vm.eval(&chunk).is_ok());
}

#[test]
fn test_default_configuration() {
    let config = Pl0Config::new();
    assert!(config.input.is_empty());
    assert_eq!(config.max_steps, u64::MAX);
    let config = Pl0Config::default();
    assert_eq!(config.max_steps, u64::MAX);
    let vm = Vm::default();
    assert_eq!((vm.pc(), vm.base(), vm.top()), (0, 1, 0));
}
