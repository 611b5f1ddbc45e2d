use rlox::chunk::{Chunk, OpCode};
use rlox::value::Value;
use rlox::vm::{Fault, InterpretError, RunFileError, RuntimeError, Vm};

fn number(value: f64) -> Value {
    Value::Number(value.to_bits())
}

fn run(values: &[Value], codes: &[OpCode]) -> Result<Option<Value>, Fault> {
    let mut chunk = Chunk::new();
    for value in values {
        chunk.write_constant(*value, 1);
    }
    for code in codes {
        chunk.write_opcode(*code, 1);
    }
    let mut vm = Vm::new();
    vm.load(chunk);
    vm.run().map_err(|error| error.fault)
}

fn bits_of(result: Result<Option<Value>, Fault>) -> u64 {
    match result {
        Ok(Some(Value::Number(bits))) => bits,
        other => panic!("no number: {:?}", other),
    }
}

#[test]
fn not_follows_the_falsey_rule() {
    assert_eq!(run(&[Value::Nil], &[OpCode::Not, OpCode::Return]), Ok(Some(Value::Bool(true))));
    assert_eq!(
        run(&[Value::Bool(false)], &[OpCode::Not, OpCode::Return]),
        Ok(Some(Value::Bool(true)))
    );
    assert_eq!(run(&[number(0.0)], &[OpCode::Not, OpCode::Return]), Ok(Some(Value::Bool(false))));
    assert_eq!(
        run(&[Value::Bool(true)], &[OpCode::Not, OpCode::Return]),
        Ok(Some(Value::Bool(false)))
    );
    assert_eq!(
        run(&[number(f64::NAN)], &[OpCode::Not, OpCode::Return]),
        Ok(Some(Value::Bool(false)))
    );
}

#[test]
fn equality_is_strict_across_variants() {
    let equal = [OpCode::Equal, OpCode::Return];
    assert_eq!(run(&[Value::Nil, Value::Nil], &equal), Ok(Some(Value::Bool(true))));
    assert_eq!(run(&[number(0.0), Value::Bool(false)], &equal), Ok(Some(Value::Bool(false))));
    assert_eq!(run(&[Value::Nil, Value::Bool(false)], &equal), Ok(Some(Value::Bool(false))));
    assert_eq!(run(&[Value::Bool(true), Value::Bool(true)], &equal), Ok(Some(Value::Bool(true))));
    assert_eq!(run(&[Value::Bool(true), Value::Bool(false)], &equal), Ok(Some(Value::Bool(false))));
    assert_eq!(run(&[number(1.5), number(1.5)], &equal), Ok(Some(Value::Bool(true))));
    assert_eq!(run(&[number(1.5), number(2.5)], &equal), Ok(Some(Value::Bool(false))));
}

#[test]
fn number_equality_is_that_of_doubles() {
    let equal = [OpCode::Equal, OpCode::Return];
    assert_eq!(run(&[number(f64::NAN), number(f64::NAN)], &equal), Ok(Some(Value::Bool(false))));
    assert_eq!(run(&[number(0.0), number(-0.0)], &equal), Ok(Some(Value::Bool(true))));
}

#[test]
fn literals_are_pushed() {
    assert_eq!(run(&[], &[OpCode::Nil, OpCode::Return]), Ok(Some(Value::Nil)));
    assert_eq!(run(&[], &[OpCode::True, OpCode::Return]), Ok(Some(Value::Bool(true))));
    assert_eq!(run(&[], &[OpCode::False, OpCode::Return]), Ok(Some(Value::Bool(false))));
    assert_eq!(run(&[number(2.5)], &[OpCode::Return]), Ok(Some(number(2.5))));
}

#[test]
fn comparison_takes_the_left_operand_first() {
    let values = [number(1.0), number(2.0)];
    assert_eq!(run(&values, &[OpCode::Less, OpCode::Return]), Ok(Some(Value::Bool(true))));
    assert_eq!(run(&values, &[OpCode::Greater, OpCode::Return]), Ok(Some(Value::Bool(false))));
    let same = [number(2.0), number(2.0)];
    assert_eq!(run(&same, &[OpCode::Less, OpCode::Return]), Ok(Some(Value::Bool(false))));
    assert_eq!(run(&same, &[OpCode::Greater, OpCode::Return]), Ok(Some(Value::Bool(false))));
    let unordered = [number(f64::NAN), number(2.0)];
    assert_eq!(run(&unordered, &[OpCode::Less, OpCode::Return]), Ok(Some(Value::Bool(false))));
    assert_eq!(run(&unordered, &[OpCode::Greater, OpCode::Return]), Ok(Some(Value::Bool(false))));
}

#[test]
fn arithmetic_takes_the_left_operand_first() {
    let values = [number(7.0), number(2.0)];
    assert_eq!(run(&values, &[OpCode::Add, OpCode::Return]), Ok(Some(number(9.0))));
    assert_eq!(run(&values, &[OpCode::Subtract, OpCode::Return]), Ok(Some(number(5.0))));
    assert_eq!(run(&values, &[OpCode::Multiply, OpCode::Return]), Ok(Some(number(14.0))));
    assert_eq!(run(&values, &[OpCode::Divide, OpCode::Return]), Ok(Some(number(3.5))));
}

#[test]
fn arithmetic_agrees_with_the_floating_point_unit() {
    let samples = [
        0.0,
        -0.0,
        1.0,
        -1.0,
        0.1,
        0.2,
        3.0,
        1e-320,
        5e-324,
        f64::MIN_POSITIVE,
        f64::MAX,
        f64::MIN,
        1e308,
        1.7976931348623157e308,
        123456.789,
        -9.87654321e-7,
        f64::INFINITY,
        f64::NEG_INFINITY,
        f64::EPSILON,
        2.0f64.powi(53),
        2.0f64.powi(53) + 2.0,
    ];
    for a in samples {
        for b in samples {
            let cases = [
                (OpCode::Add, a + b),
                (OpCode::Subtract, a - b),
                (OpCode::Multiply, a * b),
                (OpCode::Divide, a / b),
            ];
            for (code, expected) in cases {
                let found = f64::from_bits(bits_of(run(&[number(a), number(b)], &[code, OpCode::Return])));
                if expected.is_nan() {
                    assert!(found.is_nan(), "{:?} {} {}", code, a, b);
                } else {
                    assert_eq!(found.to_bits(), expected.to_bits(), "{:?} {} {}", code, a, b);
                }
            }
        }
    }
}

#[test]
fn negate_flips_the_sign() {
    for value in [0.0, -0.0, 1.5, -2.5, f64::INFINITY, f64::MAX, 5e-324] {
        assert_eq!(
            bits_of(run(&[number(value)], &[OpCode::Negate, OpCode::Return])),
            (-value).to_bits()
        );
    }
    assert_eq!(
        bits_of(run(&[number(f64::NAN)], &[OpCode::Negate, OpCode::Return])),
        (-f64::NAN).to_bits()
    );
}

#[test]
fn operand_that_is_no_number_is_a_type_mismatch() {
    for code in [
        OpCode::Add,
        OpCode::Subtract,
        OpCode::Multiply,
        OpCode::Divide,
        OpCode::Greater,
        OpCode::Less,
    ] {
        assert_eq!(run(&[Value::Bool(true), number(1.0)], &[code]), Err(Fault::TypeMismatch));
        assert_eq!(run(&[number(1.0), Value::Nil], &[code]), Err(Fault::TypeMismatch));
        assert_eq!(run(&[Value::Nil], &[code]), Err(Fault::TypeMismatch));
    }
    assert_eq!(run(&[Value::Nil], &[OpCode::Negate]), Err(Fault::TypeMismatch));
    assert_eq!(run(&[Value::Bool(false)], &[OpCode::Negate]), Err(Fault::TypeMismatch));
}

#[test]
fn pop_from_an_empty_stack_is_an_underflow() {
    for code in [
        OpCode::Add,
        OpCode::Subtract,
        OpCode::Multiply,
        OpCode::Divide,
        OpCode::Greater,
        OpCode::Less,
        OpCode::Equal,
        OpCode::Not,
        OpCode::Negate,
        OpCode::Return,
    ] {
        assert_eq!(run(&[], &[code]), Err(Fault::StackUnderflow));
    }
    for code in [
        OpCode::Add,
        OpCode::Subtract,
        OpCode::Multiply,
        OpCode::Divide,
        OpCode::Greater,
        OpCode::Less,
        OpCode::Equal,
    ] {
        assert_eq!(run(&[number(1.0)], &[code]), Err(Fault::StackUnderflow));
    }
}

#[test]
fn constant_outside_the_pool_is_a_fault() {
    let mut chunk = Chunk::new();
    chunk.write_opcode(OpCode::Constant(3), 1);
    let mut vm = Vm::new();
    vm.load(chunk);
    assert_eq!(vm.run(), Err(RuntimeError { fault: Fault::MissingConstant, line: 1 }));
}

#[test]
fn fault_is_reported_with_the_first_line_of_the_chunk() {
    let mut chunk = Chunk::new();
    chunk.write_opcode(OpCode::Nil, 4);
    chunk.write_opcode(OpCode::True, 5);
    chunk.write_opcode(OpCode::Add, 6);
    let mut vm = Vm::new();
    vm.load(chunk);
    assert_eq!(vm.run(), Err(RuntimeError { fault: Fault::TypeMismatch, line: 4 }));
}

#[test]
fn fault_in_a_chunk_without_lines_is_reported_with_line_zero() {
    let mut chunk = Chunk::new();
    chunk.codes.push(OpCode::Return);
    let mut vm = Vm::new();
    vm.load(chunk);
    assert_eq!(vm.run(), Err(RuntimeError { fault: Fault::StackUnderflow, line: 0 }));
}

#[test]
fn execution_stops_at_the_first_return() {
    assert_eq!(
        run(&[number(1.0), number(2.0)], &[OpCode::Return, OpCode::Add, OpCode::Return]),
        Ok(Some(number(2.0)))
    );
}

#[test]
fn chunk_without_return_has_no_result() {
    assert_eq!(run(&[], &[]), Ok(None));
    assert_eq!(run(&[number(1.0)], &[OpCode::Negate]), Ok(None));
}

#[test]
fn run_without_a_chunk_does_nothing() {
    let mut vm = Vm::new();
    assert_eq!(vm.run(), Ok(None));
}

#[test]
fn run_unloads_the_chunk() {
    let mut chunk = Chunk::new();
    chunk.write_opcode(OpCode::True, 1);
    chunk.write_opcode(OpCode::Return, 1);
    let mut vm = Vm::new();
    vm.load(chunk);
    assert_eq!(vm.run(), Ok(Some(Value::Bool(true))));
    assert_eq!(vm.run(), Ok(None));
}

#[test]
fn stack_outlives_a_run() {
    let mut left = Chunk::new();
    left.write_constant(number(5.0), 1);
    left.write_constant(number(6.0), 1);
    let mut vm = Vm::new();
    vm.load(left);
    assert_eq!(vm.run(), Ok(None));
    let mut next = Chunk::new();
    next.write_opcode(OpCode::Multiply, 1);
    next.write_opcode(OpCode::Return, 1);
    vm.load(next);
    assert_eq!(vm.run(), Ok(Some(number(30.0))));
    let mut last = Chunk::new();
    last.write_opcode(OpCode::Return, 1);
    vm.load(last);
    assert_eq!(vm.run().map_err(|error| error.fault), Err(Fault::StackUnderflow));
}

#[test]
fn interpret_leaves_the_stack_empty() {
    let mut vm = Vm::new();
    assert_eq!(vm.interpret("1 + 2 * 3"), Ok(Some(number(7.0))));
    let mut chunk = Chunk::new();
    chunk.write_opcode(OpCode::Return, 1);
    vm.load(chunk);
    assert_eq!(vm.run().map_err(|error| error.fault), Err(Fault::StackUnderflow));
}

#[test]
fn machine_serves_one_source_after_another() {
    let mut vm = Vm::new();
    assert_eq!(vm.interpret("1 +"), Err(InterpretError::Compile));
    assert_eq!(vm.interpret("2 * 3"), Ok(Some(number(6.0))));
    assert_eq!(vm.interpret("(4"), Err(InterpretError::Compile));
    assert_eq!(vm.interpret("-4"), Ok(Some(number(-4.0))));
}

#[test]
fn failed_compilation_keeps_the_loaded_chunk() {
    let mut chunk = Chunk::new();
    chunk.write_opcode(OpCode::Nil, 1);
    chunk.write_opcode(OpCode::Return, 1);
    let mut vm = Vm::new();
    vm.load(chunk);
    assert_eq!(vm.interpret("+"), Err(InterpretError::Compile));
    assert_eq!(vm.run(), Ok(Some(Value::Nil)));
}

#[test]
fn repl_turn_ends_on_an_empty_line() {
    let mut vm = Vm::new();
    assert_eq!(vm.repl("1 + 1\n"), Some(Ok(Some(number(2.0)))));
    assert_eq!(vm.repl("1 +\n"), Some(Err(InterpretError::Compile)));
    assert_eq!(vm.repl("\n"), Some(Err(InterpretError::Compile)));
    assert_eq!(vm.repl(""), None);
}

#[test]
fn run_file_tells_unreadable_from_failing() {
    let mut vm = Vm::new();
    assert_eq!(vm.run_file(None), Err(RunFileError::Io));
    assert_eq!(vm.run_file(Some("8 / 2\n")), Ok(Some(number(4.0))));
    assert_eq!(
        vm.run_file(Some("8 /\n")),
        Err(RunFileError::Interpret(InterpretError::Compile))
    );
    assert_eq!(RunFileError::from(InterpretError::Runtime), RunFileError::Interpret(InterpretError::Runtime));
}

#[test]
fn arithmetic_agrees_on_many_bit_patterns() {
    let mut state: u64 = 0x9e37_79b9_7f4a_7c15;
    let mut next = move || {
        state = state.wrapping_mul(6364136223846793005).wrapping_add(1442695040888963407);
        let high = state;
        state = state.wrapping_mul(6364136223846793005).wrapping_add(1442695040888963407);
        (high & 0xffff_ffff_0000_0000) | (state >> 32)
    };
    for round in 0..1500 {
        let mut a = f64::from_bits(next());
        let mut b = f64::from_bits(next());
        if round % 3 == 0 {
            // Operands of like size, so that sums and differences round.
            b = a * (1.0 + f64::from_bits(next()).fract().abs() / 1024.0);
        }
        if round % 7 == 0 {
            // Operands near the smallest doubles.
            a = f64::from_bits(next() & 0x801f_ffff_ffff_ffff);
        }
        if a.is_nan() || b.is_nan() {
            continue;
        }
        let cases = [
            (OpCode::Add, a + b),
            (OpCode::Subtract, a - b),
            (OpCode::Multiply, a * b),
            (OpCode::Divide, a / b),
        ];
        for (code, expected) in cases {
            let found = f64::from_bits(bits_of(run(&[number(a), number(b)], &[code, OpCode::Return])));
            if expected.is_nan() {
                assert!(found.is_nan(), "{:?} {:e} {:e}", code, a, b);
            } else {
                assert_eq!(found.to_bits(), expected.to_bits(), "{:?} {:e} {:e}", code, a, b);
            }
        }
    }
}
