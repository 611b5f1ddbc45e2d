use rlox::chunk::{Chunk, OpCode};
use rlox::compiler::{compile, diagnose, ParserError, Precedence};
use rlox::value::Value;

fn number(value: f64) -> Value {
    Value::Number(value.to_bits())
}

fn codes_of(source: &str) -> Vec<OpCode> {
    let mut chunk = Chunk::new();
    assert!(compile(source, &mut chunk).is_ok(), "{}", source);
    chunk.codes
}

fn diagnostic_of(source: &str) -> (i32, Option<String>, String) {
    let mut chunk = Chunk::new();
    match compile(source, &mut chunk) {
        Ok(()) => panic!("compiled: {}", source),
        Err(ParserError::AtToken { line, location, msg }) => {
            (line, Some(location.to_string()), msg.to_string())
        }
        Err(ParserError::General { line, msg }) => (line, None, msg.to_string()),
    }
}

fn diagnostics_of(source: &str) -> Vec<(i32, Option<String>, String)> {
    let mut chunk = Chunk::new();
    diagnose(source, &mut chunk)
        .into_iter()
        .map(|error| match error {
            ParserError::AtToken { line, location, msg } => {
                (line, Some(location.to_string()), msg.to_string())
            }
            ParserError::General { line, msg } => (line, None, msg.to_string()),
        })
        .collect()
}

fn at(line: i32, location: &str, msg: &str) -> (i32, Option<String>, String) {
    (line, Some(location.to_string()), msg.to_string())
}

#[test]
fn next_level_is_one_step_tighter() {
    let levels = [
        Precedence::Lowest,
        Precedence::Assignment,
        Precedence::Or,
        Precedence::And,
        Precedence::Equality,
        Precedence::Comparison,
        Precedence::Term,
        Precedence::Factor,
        Precedence::Unary,
        Precedence::Call,
        Precedence::Primary,
    ];
    for pair in levels.windows(2) {
        assert_eq!(pair[0].next_level(), Some(pair[1]));
        assert!(pair[0].rank() < pair[1].rank());
        assert!(pair[0] < pair[1]);
    }
    assert_eq!(Precedence::Primary.next_level(), None);
}

#[test]
fn literal_compiles_to_its_constant() {
    let mut chunk = Chunk::new();
    assert!(compile("12.5", &mut chunk).is_ok());
    assert_eq!(chunk.codes, vec![OpCode::Constant(0), OpCode::Return]);
    assert_eq!(chunk.constants, vec![number(12.5)]);
    assert_eq!(chunk.lines, vec![1, 1]);
}

#[test]
fn operators_follow_their_operands() {
    assert_eq!(
        codes_of("1 - 2"),
        vec![OpCode::Constant(0), OpCode::Constant(1), OpCode::Subtract, OpCode::Return]
    );
    assert_eq!(
        codes_of("1 * 2"),
        vec![OpCode::Constant(0), OpCode::Constant(1), OpCode::Multiply, OpCode::Return]
    );
    assert_eq!(
        codes_of("1 / 2"),
        vec![OpCode::Constant(0), OpCode::Constant(1), OpCode::Divide, OpCode::Return]
    );
    assert_eq!(codes_of("-1"), vec![OpCode::Constant(0), OpCode::Negate, OpCode::Return]);
}

#[test]
fn precedence_orders_the_instructions() {
    assert_eq!(
        codes_of("1 + 2 * 3"),
        vec![
            OpCode::Constant(0),
            OpCode::Constant(1),
            OpCode::Constant(2),
            OpCode::Multiply,
            OpCode::Add,
            OpCode::Return,
        ]
    );
    assert_eq!(
        codes_of("1 * 2 + 3"),
        vec![
            OpCode::Constant(0),
            OpCode::Constant(1),
            OpCode::Multiply,
            OpCode::Constant(2),
            OpCode::Add,
            OpCode::Return,
        ]
    );
    assert_eq!(
        codes_of("(1 + 2) * 3"),
        vec![
            OpCode::Constant(0),
            OpCode::Constant(1),
            OpCode::Add,
            OpCode::Constant(2),
            OpCode::Multiply,
            OpCode::Return,
        ]
    );
    assert_eq!(
        codes_of("1 - 2 - 3"),
        vec![
            OpCode::Constant(0),
            OpCode::Constant(1),
            OpCode::Subtract,
            OpCode::Constant(2),
            OpCode::Subtract,
            OpCode::Return,
        ]
    );
    assert_eq!(
        codes_of("-1 * -2"),
        vec![
            OpCode::Constant(0),
            OpCode::Negate,
            OpCode::Constant(1),
            OpCode::Negate,
            OpCode::Multiply,
            OpCode::Return,
        ]
    );
}

#[test]
fn instructions_carry_the_line_of_their_token() {
    let mut chunk = Chunk::new();
    assert!(compile("1\n+\n2 *\n-\n3\n", &mut chunk).is_ok());
    assert_eq!(
        chunk.codes,
        vec![
            OpCode::Constant(0),
            OpCode::Constant(1),
            OpCode::Constant(2),
            OpCode::Negate,
            OpCode::Multiply,
            OpCode::Add,
            OpCode::Return,
        ]
    );
    assert_eq!(chunk.lines, vec![1, 3, 5, 4, 3, 2, 6]);
}

#[test]
fn compile_appends_to_what_the_chunk_holds() {
    let mut chunk = Chunk::new();
    chunk.write_constant(Value::Nil, 9);
    assert!(compile("7", &mut chunk).is_ok());
    assert_eq!(chunk.codes, vec![OpCode::Constant(0), OpCode::Constant(1), OpCode::Return]);
    assert_eq!(chunk.constants, vec![Value::Nil, number(7.0)]);
    assert_eq!(chunk.lines, vec![9, 1, 1]);
}

#[test]
fn missing_operand_is_reported_at_the_end() {
    assert_eq!(diagnostic_of("1 +"), at(1, "", "Expect expression."));
    assert_eq!(diagnostic_of(""), at(1, "", "Expect expression."));
    assert_eq!(diagnostic_of("1 *\n\n"), at(3, "", "Expect expression."));
}

#[test]
fn token_that_starts_no_expression_is_reported() {
    assert_eq!(diagnostic_of("+ 1"), at(1, "+", "Expect expression."));
    assert_eq!(diagnostic_of(")"), at(1, ")", "Expect expression."));
    assert_eq!(diagnostic_of("true + 1"), at(1, "true", "Expect expression."));
    assert_eq!(diagnostic_of("1 + x"), at(1, "x", "Expect expression."));
}

#[test]
fn missing_parenthesis_is_reported() {
    assert_eq!(diagnostic_of("(1 + 2"), at(1, "", "Expect ')' after expression."));
    assert_eq!(diagnostic_of("(1 2)"), at(1, "2", "Expect ')' after expression."));
}

#[test]
fn trailing_tokens_are_reported() {
    assert_eq!(diagnostic_of("1 2"), at(1, "2", "Expect end of expression."));
    assert_eq!(diagnostic_of("1 )"), at(1, ")", "Expect end of expression."));
    assert_eq!(diagnostic_of("(1)\n(2)"), at(2, "(", "Expect end of expression."));
}

#[test]
fn lexical_faults_are_reported_with_their_message() {
    assert_eq!(
        diagnostic_of("1 + @"),
        at(1, "Unexpected character.", "Unexpected character.")
    );
    assert_eq!(
        diagnostic_of("\n\"abc"),
        at(2, "Unterminated string.", "Unterminated string.")
    );
}

#[test]
fn unreadable_number_is_reported() {
    assert_eq!(diagnostic_of("1\u{0663}"), at(1, "1\u{0663}", "Invalid number."));
    assert_eq!(diagnostic_of("2 * 1\u{00b2}"), at(1, "1\u{00b2}", "Invalid number."));
}

#[test]
fn the_first_diagnostic_is_the_result() {
    assert_eq!(diagnostic_of("(+) + 1 1"), at(1, "+", "Expect expression."));
    assert_eq!(diagnostic_of("@ 1 +"), at(1, "Unexpected character.", "Unexpected character."));
}

#[test]
fn failed_compilation_still_ends_the_chunk() {
    let mut chunk = Chunk::new();
    assert!(compile("1 +", &mut chunk).is_err());
    assert_eq!(chunk.codes, vec![OpCode::Constant(0), OpCode::Add, OpCode::Return]);
    assert_eq!(chunk.lines, vec![1, 1, 1]);
    let mut other = Chunk::new();
    assert!(compile("1 2", &mut other).is_err());
    assert_eq!(other.codes, vec![OpCode::Constant(0), OpCode::Return]);
}

#[test]
fn long_numbers_round_to_the_nearest_double() {
    let mut chunk = Chunk::new();
    let source = "0.1000000000000000055511151231257827021181583404541015625 + 123456789012345678901234567890 + 9007199254740993";
    assert!(compile(source, &mut chunk).is_ok());
    assert_eq!(
        chunk.constants,
        vec![number(0.1), number(123456789012345678901234567890.0), number(9007199254740993.0)]
    );
}

#[test]
fn sound_source_has_no_diagnostic() {
    assert_eq!(diagnostics_of("(1 + 2) * -3"), vec![]);
    let mut chunk = Chunk::new();
    assert!(diagnose("1 + 2", &mut chunk).is_empty());
    assert_eq!(
        chunk.codes,
        vec![OpCode::Constant(0), OpCode::Constant(1), OpCode::Add, OpCode::Return]
    );
}

#[test]
fn diagnostics_that_follow_from_one_fault_are_held_back() {
    assert_eq!(diagnostics_of("1 + + 2"), vec![at(1, "+", "Expect expression.")]);
    assert_eq!(diagnostics_of("(1 2"), vec![at(1, "2", "Expect ')' after expression.")]);
    assert_eq!(
        diagnostics_of("1 @ 2"),
        vec![at(1, "Unexpected character.", "Unexpected character.")]
    );
    assert_eq!(
        diagnostics_of("@ # 1"),
        vec![at(1, "Unexpected character.", "Unexpected character.")]
    );
    assert_eq!(diagnostics_of("1 +"), vec![at(1, "", "Expect expression.")]);
}

#[test]
fn consumed_token_ends_the_holding_back() {
    assert_eq!(
        diagnostics_of("(+) + 1 1"),
        vec![at(1, "+", "Expect expression."), at(1, "1", "Expect end of expression.")]
    );
    assert_eq!(
        diagnostics_of("(@)\n+ 1\u{0663}"),
        vec![
            at(1, "Unexpected character.", "Unexpected character."),
            at(2, "1\u{0663}", "Invalid number."),
        ]
    );
}

#[test]
fn compile_gives_the_first_of_the_diagnostics() {
    for source in ["1 +", "(+) + 1 1", "@", "(1", "1 2", "", "1\u{0663} +"] {
        assert_eq!(diagnostic_of(source), diagnostics_of(source)[0].clone(), "{}", source);
    }
}

#[test]
fn literals_denote_the_doubles_that_the_language_gives_them() {
    let literals = [
        "0", "00", "1", "10", "0.5", "3.14159", "2.718281828459045", "123456789",
        "0.000001", "1000000000000000000000", "4.9406564584124654", "1.7976931348623157",
        "179769313486231570000000000000000000000000000000000000000000000000000000000000000000000000000000000000000000000000000000000000000000000000000000000000000000000000000000000000000000000000000000000000000000000000000000000000000000000000000000000000000000000000000000000000000000000000000000000000000000000",
        "1797693134862315800000000000000000000000000000000000000000000000000000000000000000000000000000000000000000000000000000000000000000000000000000000000000000000000000000000000000000000000000000000000000000000000000000000000000000000000000000000000000000000000000000000000000000000000000000000000000000000000",
        "0.000000000000000000000000000000000000000000000000000000000000000000000000000000000000000000000000000000000000000000000000000000000000000000000000000000000000000000000000000000000000000000000000000000000000000000000000000000000000000000000000000000000000000000000000000000000000000000000000000000000000000000000000000000000049406564584124654",
        "0.1", "0.2", "0.3", "0.7", "9007199254740992", "9007199254740993", "9007199254740995",
        "1.00000000000000011102230246251565404236316680908203125",
        "1.00000000000000011102230246251565404236316680908203124",
        "1.00000000000000011102230246251565404236316680908203126",
        "8.5", "12345.678", "0.0", "000.000", "2.2250738585072014", "99999999999999999999",
    ];
    for literal in literals {
        let mut chunk = Chunk::new();
        assert!(compile(literal, &mut chunk).is_ok(), "{}", literal);
        let expected: f64 = literal.parse().unwrap();
        assert_eq!(chunk.constants, vec![number(expected)], "{}", literal);
    }
}
