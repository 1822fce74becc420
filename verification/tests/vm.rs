use diablo::chunk::{Chunk, Op, Value};
use diablo::compiler::compile;
use diablo::debug::{disassemble_chunk, NOT_FOUND};
use diablo::error::DiabloError;
use diablo::vm::Vm;

fn number(x: f64) -> Value {
    Value::Number(x.to_bits())
}

fn float(v: Value) -> f64 {
    match v {
        Value::Number(bits) => f64::from_bits(bits),
    }
}

fn ieee(op: Op, a: Value, b: Value) -> Value {
    let (x, y) = (float(a), float(b));
    match op {
        Op::Add => number(x + y),
        Op::Subtract => number(x - y),
        Op::Multiply => number(x * y),
        Op::Divide => number(x / y),
        _ => unreachable!(),
    }
}

fn program(constants: &[f64], code: &[Op]) -> Chunk {
    let mut chunk = Chunk::new();
    for c in constants {
        chunk.add_constant(number(*c));
    }
    for (i, op) in code.iter().enumerate() {
        chunk.write(*op, 10 + i);
    }
    chunk
}

#[test]
fn two_plus_three() {
    let chunk = program(&[2.0, 3.0], &[Op::Constant(0), Op::Constant(1), Op::Add, Op::Return]);
    let mut vm = Vm::new(chunk);
    let result = vm.run(ieee);
    assert_eq!(result.map(float), Ok(5.0));
    assert_eq!(vm.ip, 4);
    assert!(vm.stack.is_empty());
}

#[test]
fn one_by_zero_is_infinity() {
    let chunk = program(&[1.0, 0.0], &[Op::Constant(0), Op::Constant(1), Op::Divide, Op::Return]);
    let mut vm = Vm::new(chunk);
    let result = vm.run(ieee);
    assert_eq!(result.map(float), Ok(f64::INFINITY));
}

#[test]
fn zero_by_zero_is_not_a_number() {
    let chunk = program(&[0.0], &[Op::Constant(0), Op::Constant(0), Op::Divide, Op::Return]);
    let mut vm = Vm::new(chunk);
    assert!(vm.run(ieee).map(float).unwrap().is_nan());
}

#[test]
fn earlier_operand_is_the_left_one() {
    let chunk = program(&[7.0, 2.0], &[Op::Constant(0), Op::Constant(1), Op::Subtract, Op::Return]);
    assert_eq!(Vm::new(chunk).run(ieee).map(float), Ok(5.0));
    let chunk = program(&[7.0, 2.0], &[Op::Constant(0), Op::Constant(1), Op::Divide, Op::Return]);
    assert_eq!(Vm::new(chunk).run(ieee).map(float), Ok(3.5));
}

#[test]
fn multiply_and_negate() {
    let chunk = program(
        &[1.5, 4.0],
        &[Op::Constant(0), Op::Negate, Op::Constant(1), Op::Multiply, Op::Return],
    );
    assert_eq!(Vm::new(chunk).run(ieee).map(float), Ok(-6.0));
}

#[test]
fn return_on_empty_stack_is_a_runtime_error() {
    let chunk = program(&[], &[Op::Return]);
    let mut vm = Vm::new(chunk);
    assert_eq!(vm.run(ieee).map(float), Err(DiabloError::RuntimeError { line: 10 }));
    assert!(vm.stack.is_empty());
    assert_eq!(vm.ip, 1);
}

#[test]
fn missing_operand_is_a_runtime_error() {
    let chunk = program(&[1.0], &[Op::Constant(0), Op::Add, Op::Return]);
    let mut vm = Vm::new(chunk);
    assert_eq!(vm.run(ieee).map(float), Err(DiabloError::RuntimeError { line: 11 }));
    assert_eq!(vm.stack.len(), 1);
    assert_eq!(float(vm.stack[0]), 1.0);
    assert_eq!(vm.ip, 2);

    let chunk = program(&[], &[Op::Negate]);
    assert_eq!(Vm::new(chunk).run(ieee).map(float), Err(DiabloError::RuntimeError { line: 10 }));
}

#[test]
fn missing_constant_is_a_runtime_error() {
    let chunk = program(&[1.0], &[Op::Constant(0), Op::Constant(1), Op::Return]);
    let mut vm = Vm::new(chunk);
    assert_eq!(vm.run(ieee).map(float), Err(DiabloError::RuntimeError { line: 11 }));
    assert_eq!(vm.stack.len(), 1);
}

#[test]
fn code_without_return_is_a_runtime_error() {
    let chunk = program(&[1.0], &[Op::Constant(0), Op::Negate]);
    let mut vm = Vm::new(chunk);
    assert_eq!(vm.run(ieee).map(float), Err(DiabloError::RuntimeError { line: 11 }));
    assert_eq!(vm.ip, 2);
    assert_eq!(vm.stack.len(), 1);

    let mut vm = Vm::new(Chunk::new());
    assert_eq!(vm.run(ieee).map(float), Err(DiabloError::RuntimeError { line: 0 }));
    assert_eq!(vm.ip, 0);
}

#[test]
fn run_resumes_after_a_return() {
    let chunk = program(
        &[1.0, 2.0],
        &[Op::Constant(0), Op::Return, Op::Constant(1), Op::Return],
    );
    let mut vm = Vm::new(chunk);
    assert_eq!(vm.run(ieee).map(float), Ok(1.0));
    assert_eq!(vm.ip, 2);
    assert_eq!(vm.run(ieee).map(float), Ok(2.0));
    assert_eq!(vm.ip, 4);
    assert_eq!(vm.run(ieee).map(float), Err(DiabloError::RuntimeError { line: 13 }));
}

#[test]
fn stack_steps() {
    let mut vm = Vm::new(program(&[], &[Op::Add, Op::Return]));
    assert_eq!(vm.ip, 0);
    assert!(vm.stack.is_empty());
    vm.push(number(8.0));
    vm.push(number(2.0));
    vm.binary_op(|a, b| number(float(a) / float(b)));
    assert_eq!(vm.stack.len(), 1);
    assert_eq!(float(vm.pop()), 4.0);
    assert!(vm.stack.is_empty());
    assert!(matches!(vm.read_op(), Op::Add));
    assert_eq!(vm.ip, 1);
    assert!(matches!(vm.read_op(), Op::Return));
    assert_eq!(vm.ip, 2);
}

#[test]
fn compile_accepts_a_text_without_lexical_error() {
    let chunk = compile("print 1 + 2; // sum\n\"text\"").unwrap();
    assert!(chunk.code.is_empty());
    assert!(chunk.constants.is_empty());
    assert!(chunk.lines.is_empty());
    assert!(compile("").is_ok());
}

#[test]
fn compile_stops_at_an_error_token() {
    assert_eq!(compile("1 + @").err(), Some(DiabloError::CompileError));
    assert_eq!(compile("\"open").err(), Some(DiabloError::CompileError));
    assert_eq!(compile("x = \u{e9};").err(), Some(DiabloError::CompileError));
}

#[test]
fn interpret_tells_the_two_failures_apart() {
    let mut vm = Vm::new(program(&[1.0], &[Op::Constant(0), Op::Return]));
    vm.push(number(9.0));
    assert_eq!(vm.interpret("1 + #", compile, ieee).map(float), Err(DiabloError::CompileError));
    assert_eq!(vm.chunk.code.len(), 2);
    assert_eq!(vm.stack.len(), 1);
    assert_eq!(vm.ip, 0);

    assert_eq!(
        vm.interpret("1 + 2", compile, ieee).map(float),
        Err(DiabloError::RuntimeError { line: 0 })
    );
    assert!(vm.chunk.code.is_empty());
    assert!(vm.stack.is_empty());
    assert_eq!(vm.ip, 0);
}

#[test]
fn interpret_runs_what_the_front_end_compiled() {
    let front_end = |_source: &str| {
        Ok(program(&[2.0, 3.0], &[Op::Constant(0), Op::Constant(1), Op::Multiply, Op::Return]))
    };
    let mut vm = Vm::new(Chunk::new());
    vm.push(number(9.0));
    vm.ip = 7;
    assert_eq!(vm.interpret("2 * 3", front_end, ieee).map(float), Ok(6.0));
    assert_eq!(vm.chunk.code.len(), 4);
    assert!(vm.stack.is_empty());
    assert_eq!(vm.ip, 4);
}

#[test]
fn interpret_starts_each_text_afresh() {
    let leaves_a_value = |_source: &str| {
        Ok(program(&[1.0], &[Op::Constant(0), Op::Constant(0), Op::Return]))
    };
    let needs_a_value = |_source: &str| Ok(program(&[], &[Op::Negate, Op::Return]));
    let mut vm = Vm::new(Chunk::new());
    assert_eq!(vm.interpret("first", leaves_a_value, ieee).map(float), Ok(1.0));
    assert_eq!(vm.stack.len(), 1);
    assert_eq!(
        vm.interpret("second", needs_a_value, ieee).map(float),
        Err(DiabloError::RuntimeError { line: 10 })
    );
    assert!(vm.stack.is_empty());
    assert_eq!(vm.ip, 1);
}

#[test]
fn interpret_maps_any_front_end_failure_to_a_compile_error() {
    let fails = |_source: &str| Err(DiabloError::RuntimeError { line: 5 });
    let mut vm = Vm::new(program(&[1.0], &[Op::Constant(0), Op::Return]));
    assert_eq!(vm.interpret("x", fails, ieee).map(float), Err(DiabloError::CompileError));
    assert_eq!(vm.chunk.code.len(), 2);
    assert_eq!(vm.ip, 0);
}

#[test]
fn listing_of_a_chunk() {
    let chunk = program(&[2.5], &[Op::Constant(0), Op::Add, Op::Return, Op::Constant(3)]);
    let listing = disassemble_chunk(&chunk);
    assert_eq!(listing.len(), 4);
    assert_eq!(listing[0].name, "OP_CONSTANT");
    assert_eq!(listing[0].constant.map(float), Some(2.5));
    assert_eq!(listing[1].name, "OP_ADD");
    assert!(listing[1].constant.is_none());
    assert_eq!(listing[2].name, "OP_RETURN");
    assert!(listing[2].constant.is_none());
    assert_eq!(listing[3].name, "OP_CONSTANT");
    assert!(listing[3].constant.is_none());
    assert!(disassemble_chunk(&Chunk::new()).is_empty());
}

#[test]
fn listing_names_every_instruction() {
    let mut chunk = Chunk::new();
    chunk.write(Op::Add, 1);
    chunk.write(Op::Negate, 1);
    let names: Vec<&str> = disassemble_chunk(&chunk).iter().map(|line| line.name).collect();
    assert_eq!(names, vec!["OP_ADD", "OP_NEGATE"]);

    let chunk = program(
        &[1.0],
        &[
            Op::Constant(0),
            Op::Add,
            Op::Subtract,
            Op::Multiply,
            Op::Divide,
            Op::Negate,
            Op::Return,
        ],
    );
    let listing = disassemble_chunk(&chunk);
    let names: Vec<&str> = listing.iter().map(|line| line.name).collect();
    assert_eq!(
        names,
        vec![
            "OP_CONSTANT",
            "OP_ADD",
            "OP_SUBTRACT",
            "OP_MULTIPLY",
            "OP_DIVIDE",
            "OP_NEGATE",
            "OP_RETURN",
        ]
    );
    for line in &listing {
        assert_ne!(line.name, NOT_FOUND);
    }
    assert_eq!(listing[0].constant.map(float), Some(1.0));
    assert!(listing[1..].iter().all(|line| line.constant.is_none()));
}
