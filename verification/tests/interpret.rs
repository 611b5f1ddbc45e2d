use rlox::chunk::{Chunk, OpCode};
use rlox::compiler::compile;
use rlox::value::Value;
use rlox::vm::{Fault, InterpretError, RuntimeError, Vm};

fn number(value: f64) -> Value {
    Value::Number(value.to_bits())
}

fn result_of(source: &str) -> Result<Option<Value>, InterpretError> {
    Vm::new().interpret(source)
}

fn double_of(source: &str) -> f64 {
    match result_of(source) {
        Ok(Some(Value::Number(bits))) => f64::from_bits(bits),
        other => panic!("no number: {:?}", other),
    }
}

#[test]
fn one_plus_two_compiles_to_four_instructions() {
    let mut chunk = Chunk::new();
    assert!(compile("1 + 2", &mut chunk).is_ok());
    assert_eq!(
        chunk.codes,
        vec![OpCode::Constant(0), OpCode::Constant(1), OpCode::Add, OpCode::Return]
    );
    assert_eq!(chunk.constants, vec![number(1.0), number(2.0)]);
    assert_eq!(chunk.lines, vec![1, 1, 1, 1]);
}

#[test]
fn one_plus_two_is_three() {
    assert_eq!(result_of("1 + 2"), Ok(Some(number(3.0))));
    assert_eq!(format!("{}", double_of("1 + 2")), "3");
}

#[test]
fn results_print_as_short_decimals() {
    assert_eq!(format!("{}", double_of("(1 + 2) * 3")), "9");
    assert_eq!(format!("{}", double_of("2 - 3 * 4")), "-10");
    assert_eq!(format!("{}", double_of("1 / 4")), "0.25");
}

#[test]
fn default_machine_is_a_new_machine() {
    let mut vm = Vm::default();
    assert_eq!(vm.run(), Ok(None));
    assert_eq!(vm.interpret("2 * 2"), Ok(Some(number(4.0))));
}

#[test]
fn grouping_overrides_precedence() {
    assert_eq!(double_of("(1 + 2) * 3"), 9.0);
}

#[test]
fn factor_binds_tighter_than_term() {
    assert_eq!(double_of("2 - 3 * 4"), -10.0);
}

#[test]
fn subtraction_and_division_associate_to_the_left() {
    assert_eq!(double_of("10 - 4 - 3"), 3.0);
    assert_eq!(double_of("64 / 4 / 2"), 8.0);
}

#[test]
fn unary_minus_binds_tightest() {
    assert_eq!(double_of("-2 * 3"), -6.0);
    assert_eq!(double_of("- - 2"), 2.0);
    assert_eq!(double_of("4 - -2"), 6.0);
}

#[test]
fn arithmetic_rounds_as_doubles_do() {
    assert_eq!(double_of("0.1 + 0.2"), 0.1 + 0.2);
    assert_eq!(double_of("1 / 3"), 1.0 / 3.0);
    assert_eq!(double_of("1.5 * 2.25 - 7 / 8"), 1.5 * 2.25 - 7.0 / 8.0);
}

#[test]
fn division_by_zero_is_no_error() {
    assert_eq!(double_of("1 / 0"), f64::INFINITY);
    assert_eq!(double_of("-1 / 0"), f64::NEG_INFINITY);
    assert!(double_of("0 / 0").is_nan());
}

#[test]
fn missing_right_operand_is_a_compile_error() {
    assert_eq!(result_of("1 +"), Err(InterpretError::Compile));
}

#[test]
fn missing_right_operand_writes_no_second_constant() {
    let mut chunk = Chunk::new();
    assert!(compile("1 +", &mut chunk).is_err());
    assert_eq!(chunk.constants, vec![number(1.0)]);
}

#[test]
fn code_of_true_plus_one_fails_at_run_time() {
    let mut chunk = Chunk::new();
    chunk.write_opcode(OpCode::True, 1);
    chunk.write_constant(number(1.0), 1);
    chunk.write_opcode(OpCode::Add, 1);
    chunk.write_opcode(OpCode::Return, 1);
    let mut vm = Vm::new();
    vm.load(chunk);
    assert_eq!(vm.run(), Err(RuntimeError { fault: Fault::TypeMismatch, line: 1 }));
}

#[test]
fn keyword_starts_no_expression() {
    assert_eq!(result_of("true + 1"), Err(InterpretError::Compile));
    assert_eq!(result_of("nil"), Err(InterpretError::Compile));
}

#[test]
fn blanks_comments_and_line_breaks_do_not_matter() {
    assert_eq!(double_of("1+2"), 3.0);
    assert_eq!(double_of("  1 // one\n\t+ 2 // two"), 3.0);
    assert_eq!(double_of("(\n1\n)\n"), 1.0);
}

#[test]
fn nested_groups_and_signs() {
    assert_eq!(double_of("((((7))))"), 7.0);
    assert_eq!(double_of("-(-(1 + 2) * -(3 - 5)) / 4"), -(-(1.0 + 2.0) * -(3.0 - 5.0)) / 4.0);
    assert_eq!(double_of("1 - (2 - 3) - 4"), 1.0 - (2.0 - 3.0) - 4.0);
    assert_eq!(double_of("2 * (3 + 4) * 5"), 70.0);
    assert_eq!(double_of("1 + 2 * 3 - 4 / 5 + 6 * 7 / 8"), 1.0 + 2.0 * 3.0 - 4.0 / 5.0 + 6.0 * 7.0 / 8.0);
}

#[test]
fn whatever_compiles_gives_a_number_and_whatever_else_is_a_compile_error() {
    let pieces = ["1", "2.5", "+", "-", "*", "/", "(", ")", " ", "x", "@", "\n", "// c\n", "."];
    let mut state: u32 = 12345;
    for _ in 0..4000 {
        let mut source = String::new();
        state = state.wrapping_mul(1664525).wrapping_add(1013904223);
        let length = 1 + (state >> 28) as usize % 7;
        for _ in 0..length {
            state = state.wrapping_mul(1664525).wrapping_add(1013904223);
            source.push_str(pieces[(state >> 16) as usize % pieces.len()]);
        }
        let mut chunk = Chunk::new();
        let compiles = compile(&source, &mut chunk).is_ok();
        match result_of(&source) {
            Ok(Some(Value::Number(_))) => assert!(compiles, "{:?}", source),
            Err(InterpretError::Compile) => assert!(!compiles, "{:?}", source),
            other => panic!("{:?} gives {:?}", source, other),
        }
    }
}
