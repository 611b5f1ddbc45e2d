//! The compiler: a precedence-driven parser that writes bytecode as it goes.
use crate::chunk::{Chunk, OpCode};
use crate::number::{ieee_parse, parse_decimal};
use crate::scanner::{fits, lemma_scan, line_at, scan, Scanner, Token, TokenType};
use crate::value::Value;
use vstd::prelude::*;

verus! {

/// How tightly an operator binds, loosest first.
#[derive(Clone, Copy, Debug, PartialEq, Eq, PartialOrd, Ord, Structural)]
pub enum Precedence {
    Lowest,
    Assignment,
    Or,
    And,
    Equality,
    Comparison,
    Term,
    Factor,
    Unary,
    Call,
    Primary,
}

/// What the parser does on a token.
#[derive(Clone, Copy, Debug, PartialEq, Eq, Structural)]
pub enum ParseFn {
    Grouping,
    Unary,
    Binary,
    Number,
}

/// What a token means to the parser: what to do where it starts an
/// expression, what to do where it follows one, and how tightly it binds
/// there.
#[derive(Clone, Copy, Debug, PartialEq, Eq, Structural)]
pub struct ParseRule {
    pub prefix: Option<ParseFn>,
    pub infix: Option<ParseFn>,
    pub precedence: Precedence,
}

/// A diagnostic of the compiler.
#[derive(Clone, Copy, Debug)]
pub enum ParserError<'src> {
    /// Something is wrong at a token: `location` is its text.
    AtToken { line: i32, location: &'src str, msg: &'src str },
    /// Something is wrong that no token stands for.
    General { line: i32, msg: &'src str },
}

/// A diagnostic, as text: `location` is `None` for a `General` one.
pub struct Diagnostic {
    pub line: i32,
    pub location: Option<Seq<char>>,
    pub message: Seq<char>,
}

impl<'src> View for ParserError<'src> {
    type V = Diagnostic;

    open spec fn view(&self) -> Diagnostic {
        match *self {
            ParserError::AtToken { line, location, msg } => Diagnostic {
                line,
                location: Some(location@),
                message: msg@,
            },
            ParserError::General { line, msg } => Diagnostic {
                line,
                location: None,
                message: msg@,
            },
        }
    }
}

/// A token, as the parser reads it.
pub struct Seen {
    pub kind: TokenType,
    pub lexeme: Seq<char>,
    pub line: i32,
}

impl<'src> View for Token<'src> {
    type V = Seen;

    open spec fn view(&self) -> Seen {
        Seen { kind: self.kind, lexeme: self.lexeme@, line: self.line }
    }
}

/// The state of a compilation: how far the source is scanned, the token
/// under inspection and the one consumed last, whether diagnostics are being
/// held back, the diagnostics reported so far, and the chunk written so far.
pub struct Parse {
    pub pos: int,
    pub current: Option<Seen>,
    pub previous: Option<Seen>,
    pub panic_mode: bool,
    pub diagnostics: Seq<Diagnostic>,
    pub codes: Seq<OpCode>,
    pub lines: Seq<i32>,
    pub constants: Seq<Value>,
}

/// The position of a level in the order of precedence.
pub open spec fn rank(level: Precedence) -> int {
    match level {
        Precedence::Lowest => 0,
        Precedence::Assignment => 1,
        Precedence::Or => 2,
        Precedence::And => 3,
        Precedence::Equality => 4,
        Precedence::Comparison => 5,
        Precedence::Term => 6,
        Precedence::Factor => 7,
        Precedence::Unary => 8,
        Precedence::Call => 9,
        Precedence::Primary => 10,
    }
}

/// The level that binds one step tighter, if there is one.
pub open spec fn tighter(level: Precedence) -> Option<Precedence> {
    match level {
        Precedence::Lowest => Some(Precedence::Assignment),
        Precedence::Assignment => Some(Precedence::Or),
        Precedence::Or => Some(Precedence::And),
        Precedence::And => Some(Precedence::Equality),
        Precedence::Equality => Some(Precedence::Comparison),
        Precedence::Comparison => Some(Precedence::Term),
        Precedence::Term => Some(Precedence::Factor),
        Precedence::Factor => Some(Precedence::Unary),
        Precedence::Unary => Some(Precedence::Call),
        Precedence::Call => Some(Precedence::Primary),
        Precedence::Primary => None,
    }
}

/// The rule of each category of token. Only `(`, `-`, `+`, `/`, `*` and
/// numbers have one; the rest can neither start nor continue an expression.
pub open spec fn rule_of(kind: TokenType) -> ParseRule {
    match kind {
        TokenType::LeftParen => ParseRule {
            prefix: Some(ParseFn::Grouping),
            infix: None,
            precedence: Precedence::Lowest,
        },
        TokenType::Minus => ParseRule {
            prefix: Some(ParseFn::Unary),
            infix: Some(ParseFn::Binary),
            precedence: Precedence::Term,
        },
        TokenType::Plus => ParseRule {
            prefix: None,
            infix: Some(ParseFn::Binary),
            precedence: Precedence::Term,
        },
        TokenType::Slash => ParseRule {
            prefix: None,
            infix: Some(ParseFn::Binary),
            precedence: Precedence::Factor,
        },
        TokenType::Star => ParseRule {
            prefix: None,
            infix: Some(ParseFn::Binary),
            precedence: Precedence::Factor,
        },
        TokenType::Number => ParseRule {
            prefix: Some(ParseFn::Number),
            infix: None,
            precedence: Precedence::Lowest,
        },
        _ => ParseRule { prefix: None, infix: None, precedence: Precedence::Lowest },
    }
}

/// The diagnostic `message` at `token`.
pub open spec fn at_token(token: Seen, message: Seq<char>) -> Diagnostic {
    Diagnostic { line: token.line, location: Some(token.lexeme), message }
}

/// Reports `diagnostic`, unless diagnostics are being held back; from then
/// on they are.
pub open spec fn report(st: Parse, diagnostic: Diagnostic) -> Parse {
    if st.panic_mode {
        st
    } else {
        Parse { panic_mode: true, diagnostics: st.diagnostics.push(diagnostic), ..st }
    }
}

/// Appends an instruction and its line to the chunk.
pub open spec fn emit(st: Parse, code: OpCode, line: i32) -> Parse {
    Parse { codes: st.codes.push(code), lines: st.lines.push(line), ..st }
}

/// Appends a constant to the pool and the instruction that loads it.
pub open spec fn emit_constant(st: Parse, constant: Value, line: i32) -> Parse {
    Parse {
        constants: st.constants.push(constant),
        ..emit(st, OpCode::Constant(st.constants.len() as usize), line)
    }
}

/// What is left to read: the characters not scanned yet, and the token
/// under inspection unless it is the end of the input.
pub open spec fn remaining(src: Seq<char>, st: Parse) -> int {
    src.len() - st.pos + match st.current {
        Some(token) => if token.kind == TokenType::Eof {
            0int
        } else {
            1int
        },
        None => 0int,
    }
}

/// Scans up to the next token that is no error and puts it under
/// inspection. Each `Error` token on the way is reported, its text as the
/// message.
pub open spec fn next_token(src: Seq<char>, st: Parse) -> Parse
    decreases src.len() - st.pos,
{
    let lexed = scan(src, st.pos);
    let token = Seen { kind: lexed.kind, lexeme: lexed.lexeme, line: line_at(src, lexed.end) as i32 };
    if lexed.kind == TokenType::Error && st.pos < lexed.end <= src.len() {
        next_token(src, report(Parse { pos: lexed.end, ..st }, at_token(token, token.lexeme)))
    } else {
        Parse { pos: lexed.end, current: Some(token), ..st }
    }
}

/// Consumes the token under inspection and moves on to the next one.
pub open spec fn advance(src: Seq<char>, st: Parse) -> Parse {
    next_token(src, Parse { previous: st.current, ..st })
}

/// The token under inspection is one that the parser can use: with it,
/// the holding back of diagnostics ends.
pub open spec fn accept(st: Parse) -> Parse {
    Parse { panic_mode: false, ..st }
}

/// Consumes the token under inspection where it is of category `kind`;
/// reports `message` at it where it is not.
pub open spec fn consume(src: Seq<char>, st: Parse, kind: TokenType, message: Seq<char>) -> Parse {
    match st.current {
        Some(token) => if token.kind == kind {
            advance(src, accept(st))
        } else {
            report(st, at_token(token, message))
        },
        None => st,
    }
}

/// A number literal was consumed: its value goes to the constant pool.
/// Text that denotes no number is reported instead.
pub open spec fn number(st: Parse) -> Parse {
    match st.previous {
        Some(token) => match ieee_parse(token.lexeme) {
            Some(bits) => emit_constant(st, Value::Number(bits), token.line),
            None => report(st, at_token(token, "Invalid number."@)),
        },
        None => st,
    }
}

/// The instruction of a binary operator, if `kind` is one.
pub open spec fn binary_code(kind: TokenType) -> Option<OpCode> {
    match kind {
        TokenType::Plus => Some(OpCode::Add),
        TokenType::Minus => Some(OpCode::Subtract),
        TokenType::Star => Some(OpCode::Multiply),
        TokenType::Slash => Some(OpCode::Divide),
        _ => None,
    }
}

/// Parses an expression whose operators bind at least as tightly as
/// `level`: consumes one token, which has to start an expression, then
/// takes operators and their right operands as long as they bind tightly
/// enough.
pub open spec fn parse_precedence(src: Seq<char>, st: Parse, level: Precedence) -> Parse
    decreases remaining(src, st), 0int,
{
    match st.current {
        Some(token) => match rule_of(token.kind).prefix {
            Some(action) => {
                let first = advance(src, accept(st));
                if 0 <= remaining(src, first) < remaining(src, st) {
                    let operand = apply(src, first, action);
                    if 0 <= remaining(src, operand) < remaining(src, st) {
                        operators(src, operand, level)
                    } else {
                        operand
                    }
                } else {
                    first
                }
            },
            None => report(advance(src, st), at_token(token, "Expect expression."@)),
        },
        None => advance(src, st),
    }
}

/// Takes operators and their right operands as long as the token under
/// inspection binds at least as tightly as `level`.
pub open spec fn operators(src: Seq<char>, st: Parse, level: Precedence) -> Parse
    decreases remaining(src, st), 2int,
{
    match st.current {
        Some(token) => {
            let rule = rule_of(token.kind);
            if rank(rule.precedence) < rank(level) {
                st
            } else {
                match rule.infix {
                    Some(action) => {
                        let taken = advance(src, accept(st));
                        if 0 <= remaining(src, taken) < remaining(src, st) {
                            let operand = apply(src, taken, action);
                            if 0 <= remaining(src, operand) < remaining(src, st) {
                                operators(src, operand, level)
                            } else {
                                operand
                            }
                        } else {
                            taken
                        }
                    },
                    None => advance(src, st),
                }
            }
        },
        None => st,
    }
}

/// What the parser does once the token that calls for `action` is
/// consumed. An operator's instruction is written after its operands.
pub open spec fn apply(src: Seq<char>, st: Parse, action: ParseFn) -> Parse
    decreases remaining(src, st), 1int,
{
    match st.previous {
        Some(token) => match action {
            ParseFn::Number => number(st),
            ParseFn::Grouping => consume(
                src,
                parse_precedence(src, st, Precedence::Assignment),
                TokenType::RightParen,
                "Expect ')' after expression."@,
            ),
            ParseFn::Unary => {
                let operand = parse_precedence(src, st, Precedence::Unary);
                if token.kind == TokenType::Minus {
                    emit(operand, OpCode::Negate, token.line)
                } else {
                    operand
                }
            },
            ParseFn::Binary => match tighter(rule_of(token.kind).precedence) {
                Some(level) => {
                    let operand = parse_precedence(src, st, level);
                    match binary_code(token.kind) {
                        Some(code) => emit(operand, code, token.line),
                        None => operand,
                    }
                },
                None => report(
                    st,
                    Diagnostic {
                        line: token.line,
                        location: None,
                        message: "Missing next precedence level."@,
                    },
                ),
            },
        },
        None => st,
    }
}

/// The state in which a compilation into a chunk begins.
pub open spec fn start(codes: Seq<OpCode>, lines: Seq<i32>, constants: Seq<Value>) -> Parse {
    Parse {
        pos: 0,
        current: None,
        previous: None,
        panic_mode: false,
        diagnostics: Seq::empty(),
        codes,
        lines,
        constants,
    }
}

/// The compilation of `src` from state `st`: one expression, then the end
/// of the input, then a `Return` on the line of the last token consumed.
pub open spec fn finish(src: Seq<char>, st: Parse) -> Parse {
    let body = consume(
        src,
        parse_precedence(src, advance(src, st), Precedence::Assignment),
        TokenType::Eof,
        "Expect end of expression."@,
    );
    match body.previous {
        Some(token) => emit(body, OpCode::Return, token.line),
        None => body,
    }
}

/// Whether the scanned part of `src` lies inside it.
pub open spec fn sound(src: Seq<char>, st: Parse) -> bool {
    0 <= st.pos <= src.len()
}

/// Whether two states hold the same chunk.
pub open spec fn same_chunk(a: Parse, b: Parse) -> bool {
    &&& a.codes == b.codes
    &&& a.lines == b.lines
    &&& a.constants == b.constants
}

/// Scanning on puts a token under inspection that is no error, and leaves
/// no more to read than the characters that were not scanned before.
pub proof fn lemma_next_token(src: Seq<char>, st: Parse)
    requires
        sound(src, st),
    ensures
        sound(src, next_token(src, st)),
        next_token(src, st).current is Some,
        next_token(src, st).current->0.kind != TokenType::Error,
        next_token(src, st).previous == st.previous,
        same_chunk(next_token(src, st), st),
        0 <= remaining(src, next_token(src, st)) <= src.len() - st.pos,
        st.diagnostics.len() <= next_token(src, st).diagnostics.len(),
    decreases src.len() - st.pos,
{
    lemma_scan(src, st.pos);
    let lexed = scan(src, st.pos);
    if lexed.kind == TokenType::Error && st.pos < lexed.end <= src.len() {
        let token = Seen {
            kind: lexed.kind,
            lexeme: lexed.lexeme,
            line: line_at(src, lexed.end) as i32,
        };
        lemma_next_token(
            src,
            report(Parse { pos: lexed.end, ..st }, at_token(token, token.lexeme)),
        );
    }
}

/// Consuming a token leaves less to read, unless the input had ended.
pub proof fn lemma_advance(src: Seq<char>, st: Parse)
    requires
        sound(src, st),
    ensures
        sound(src, advance(src, st)),
        advance(src, st).current is Some,
        advance(src, st).current->0.kind != TokenType::Error,
        advance(src, st).previous == st.current,
        same_chunk(advance(src, st), st),
        0 <= remaining(src, advance(src, st)) <= remaining(src, st),
        (st.current matches Some(token) && token.kind != TokenType::Eof) ==> remaining(
            src,
            advance(src, st),
        ) < remaining(src, st),
{
    lemma_next_token(src, Parse { previous: st.current, ..st });
}

/// Parsing never leaves more to read than it found.
pub proof fn lemma_parse_precedence(src: Seq<char>, st: Parse, level: Precedence)
    requires
        sound(src, st),
    ensures
        sound(src, parse_precedence(src, st, level)),
        0 <= remaining(src, parse_precedence(src, st, level)) <= remaining(src, st),
        parse_precedence(src, st, level).current is Some,
    decreases remaining(src, st), 0int,
{
    lemma_advance(src, st);
    lemma_advance(src, accept(st));
    match st.current {
        Some(token) => match rule_of(token.kind).prefix {
            Some(action) => {
                let first = advance(src, accept(st));
                lemma_apply(src, first, action);
                let operand = apply(src, first, action);
                lemma_operators(src, operand, level);
            },
            None => {},
        },
        None => {},
    }
}

/// Taking operators never leaves more to read than was found.
pub proof fn lemma_operators(src: Seq<char>, st: Parse, level: Precedence)
    requires
        sound(src, st),
        st.current is Some,
    ensures
        sound(src, operators(src, st, level)),
        0 <= remaining(src, operators(src, st, level)) <= remaining(src, st),
        operators(src, st, level).current is Some,
    decreases remaining(src, st), 2int,
{
    let token = st.current->0;
    let rule = rule_of(token.kind);
    if rank(rule.precedence) >= rank(level) {
        lemma_advance(src, st);
        lemma_advance(src, accept(st));
        match rule.infix {
            Some(action) => {
                let taken = advance(src, accept(st));
                lemma_apply(src, taken, action);
                let operand = apply(src, taken, action);
                lemma_operators(src, operand, level);
            },
            None => {},
        }
    }
}

/// An action never leaves more to read than it found.
pub proof fn lemma_apply(src: Seq<char>, st: Parse, action: ParseFn)
    requires
        sound(src, st),
        st.current is Some,
    ensures
        sound(src, apply(src, st, action)),
        0 <= remaining(src, apply(src, st, action)) <= remaining(src, st),
        apply(src, st, action).current is Some,
    decreases remaining(src, st), 1int,
{
    match st.previous {
        Some(token) => match action {
            ParseFn::Number => {},
            ParseFn::Grouping => {
                lemma_parse_precedence(src, st, Precedence::Assignment);
                lemma_advance(src, accept(parse_precedence(src, st, Precedence::Assignment)));
            },
            ParseFn::Unary => {
                lemma_parse_precedence(src, st, Precedence::Unary);
            },
            ParseFn::Binary => match tighter(rule_of(token.kind).precedence) {
                Some(level) => {
                    lemma_parse_precedence(src, st, level);
                },
                None => {},
            },
        },
        None => {},
    }
}

impl Precedence {
    /// The level that binds one step tighter, if there is one.
    pub fn next_level(&self) -> (r: Option<Precedence>)
        ensures
            r == tighter(*self),
    {
        match *self {
            Precedence::Lowest => Some(Precedence::Assignment),
            Precedence::Assignment => Some(Precedence::Or),
            Precedence::Or => Some(Precedence::And),
            Precedence::And => Some(Precedence::Equality),
            Precedence::Equality => Some(Precedence::Comparison),
            Precedence::Comparison => Some(Precedence::Term),
            Precedence::Term => Some(Precedence::Factor),
            Precedence::Factor => Some(Precedence::Unary),
            Precedence::Unary => Some(Precedence::Call),
            Precedence::Call => Some(Precedence::Primary),
            Precedence::Primary => None,
        }
    }

    /// The position of this level in the order of precedence.
    pub fn rank(&self) -> (r: u8)
        ensures
            r == rank(*self),
    {
        match *self {
            Precedence::Lowest => 0,
            Precedence::Assignment => 1,
            Precedence::Or => 2,
            Precedence::And => 3,
            Precedence::Equality => 4,
            Precedence::Comparison => 5,
            Precedence::Term => 6,
            Precedence::Factor => 7,
            Precedence::Unary => 8,
            Precedence::Call => 9,
            Precedence::Primary => 10,
        }
    }
}

/// The diagnostics of `errors`, as text.
pub open spec fn texts(errors: Seq<ParserError<'_>>) -> Seq<Diagnostic> {
    errors.map_values(|error: ParserError| error@)
}

/// The token that `token` holds, as the parser reads it.
pub open spec fn seen(token: Option<Token<'_>>) -> Option<Seen> {
    match token {
        Some(token) => Some(token@),
        None => None,
    }
}

struct Parser<'src> {
    current: Option<Token<'src>>,
    previous: Option<Token<'src>>,
    scanner: Scanner<'src>,
    chunk: Chunk,
    panic_mode: bool,
    diagnostics: Vec<ParserError<'src>>,
}

impl<'src> Parser<'src> {
    spec fn src(&self) -> Seq<char> {
        self.scanner.source@
    }

    spec fn model(&self) -> Parse {
        Parse {
            pos: self.scanner.current as int,
            current: seen(self.current),
            previous: seen(self.previous),
            panic_mode: self.panic_mode,
            diagnostics: texts(self.diagnostics@),
            codes: self.chunk.codes@,
            lines: self.chunk.lines@,
            constants: self.chunk.constants@,
        }
    }

    spec fn left(&self) -> int {
        remaining(self.src(), self.model())
    }

    /// Whether this parser wrote nothing ill-formed into a sound chunk.
    spec fn kept(&self, before: Self) -> bool {
        &&& self.scanner.wf()
        &&& self.src() == before.src()
        &&& before.chunk.well_formed() ==> self.chunk.well_formed()
    }

    fn new(scanner: Scanner<'src>, chunk: Chunk) -> (parser: Self)
        ensures
            parser.scanner == scanner,
            parser.chunk == chunk,
            parser.model() == (Parse {
                pos: scanner.current as int,
                ..start(chunk.codes@, chunk.lines@, chunk.constants@)
            }),
    {
        let parser = Parser {
            current: None,
            previous: None,
            scanner,
            chunk,
            panic_mode: false,
            diagnostics: Vec::new(),
        };
        assert(texts(parser.diagnostics@) =~= Seq::<Diagnostic>::empty());
        parser
    }

    fn get_rule(kind: TokenType) -> (rule: ParseRule)
        ensures
            rule == rule_of(kind),
    {
        match kind {
            TokenType::LeftParen => ParseRule {
                prefix: Some(ParseFn::Grouping),
                infix: None,
                precedence: Precedence::Lowest,
            },
            TokenType::Minus => ParseRule {
                prefix: Some(ParseFn::Unary),
                infix: Some(ParseFn::Binary),
                precedence: Precedence::Term,
            },
            TokenType::Plus => ParseRule {
                prefix: None,
                infix: Some(ParseFn::Binary),
                precedence: Precedence::Term,
            },
            TokenType::Slash => ParseRule {
                prefix: None,
                infix: Some(ParseFn::Binary),
                precedence: Precedence::Factor,
            },
            TokenType::Star => ParseRule {
                prefix: None,
                infix: Some(ParseFn::Binary),
                precedence: Precedence::Factor,
            },
            TokenType::Number => ParseRule {
                prefix: Some(ParseFn::Number),
                infix: None,
                precedence: Precedence::Lowest,
            },
            _ => ParseRule { prefix: None, infix: None, precedence: Precedence::Lowest },
        }
    }

    fn report(&mut self, error: ParserError<'src>)
        ensures
            final(self).model() == report(old(self).model(), error@),
            final(self).scanner == old(self).scanner,
            final(self).chunk == old(self).chunk,
    {
        if self.panic_mode {
            return ;
        }
        self.panic_mode = true;
        self.diagnostics.push(error);
        assert(texts(self.diagnostics@) =~= texts(old(self).diagnostics@).push(error@));
    }

    fn advance(&mut self)
        requires
            old(self).scanner.wf(),
        ensures
            final(self).kept(*old(self)),
            final(self).chunk == old(self).chunk,
            final(self).model() == advance(old(self).src(), old(self).model()),
    {
        self.previous = self.current;
        let ghost src = self.src();
        let ghost target = next_token(src, self.model());
        loop
            invariant_except_break
                target == next_token(src, self.model()),
            invariant
                self.scanner.wf(),
                self.src() == src,
                self.chunk == old(self).chunk,
            ensures
                self.scanner.wf(),
                self.src() == src,
                self.chunk == old(self).chunk,
                self.model() == target,
            decreases src.len() - self.scanner.current,
        {
            proof {
                lemma_scan(src, self.scanner.current as int);
            }
            let token = self.scanner.scan_token();
            if token.kind == TokenType::Error {
                self.report(
                    ParserError::AtToken {
                        line: token.line,
                        location: token.lexeme,
                        msg: token.lexeme,
                    },
                );
            } else {
                self.current = Some(token);
                break ;
            }
        }
    }
    fn consume(&mut self, kind: TokenType, msg: &'src str)
        requires
            old(self).scanner.wf(),
        ensures
            final(self).kept(*old(self)),
            final(self).chunk == old(self).chunk,
            final(self).model() == consume(old(self).src(), old(self).model(), kind, msg@),
    {
        let current = match self.current {
            Some(token) => token,
            None => {
                return ;
            },
        };
        if current.kind == kind {
            self.panic_mode = false;
            self.advance();
        } else {
            self.report(
                ParserError::AtToken { line: current.line, location: current.lexeme, msg },
            );
        }
    }

    fn number(&mut self)
        requires
            old(self).scanner.wf(),
        ensures
            final(self).kept(*old(self)),
            final(self).scanner == old(self).scanner,
            final(self).model() == number(old(self).model()),
    {
        let previous = match self.previous {
            Some(token) => token,
            None => {
                return ;
            },
        };
        match parse_decimal(previous.lexeme) {
            Some(bits) => {
                self.chunk.write_constant(Value::Number(bits), previous.line);
            },
            None => {
                self.report(
                    ParserError::AtToken {
                        line: previous.line,
                        location: previous.lexeme,
                        msg: "Invalid number.",
                    },
                );
            },
        }
    }

    fn expression(&mut self)
        requires
            old(self).scanner.wf(),
        ensures
            final(self).kept(*old(self)),
            final(self).model() == parse_precedence(
                old(self).src(),
                old(self).model(),
                Precedence::Assignment,
            ),
        decreases old(self).left(), 1int,
    {
        self.parse_precedence(&Precedence::Assignment);
    }

    fn grouping(&mut self)
        requires
            old(self).scanner.wf(),
            old(self).previous is Some,
        ensures
            final(self).kept(*old(self)),
            final(self).model() == apply(old(self).src(), old(self).model(), ParseFn::Grouping),
        decreases old(self).left(), 2int,
    {
        self.expression();
        self.consume(TokenType::RightParen, "Expect ')' after expression.");
    }

    fn unary(&mut self)
        requires
            old(self).scanner.wf(),
        ensures
            final(self).kept(*old(self)),
            final(self).model() == apply(old(self).src(), old(self).model(), ParseFn::Unary),
        decreases old(self).left(), 1int,
    {
        let previous = match self.previous {
            Some(token) => token,
            None => {
                return ;
            },
        };
        let op_type = previous.kind;
        let line = previous.line;
        self.parse_precedence(&Precedence::Unary);
        if op_type == TokenType::Minus {
            self.chunk.write_opcode(OpCode::Negate, line);
        }
    }

    fn binary(&mut self)
        requires
            old(self).scanner.wf(),
        ensures
            final(self).kept(*old(self)),
            final(self).model() == apply(old(self).src(), old(self).model(), ParseFn::Binary),
        decreases old(self).left(), 1int,
    {
        let previous = match self.previous {
            Some(token) => token,
            None => {
                return ;
            },
        };
        let op_type = previous.kind;
        let line = previous.line;
        let rule = Self::get_rule(op_type);
        let next_precedence = match rule.precedence.next_level() {
            Some(level) => level,
            None => {
                self.report(ParserError::General { line, msg: "Missing next precedence level." });
                return ;
            },
        };
        self.parse_precedence(&next_precedence);
        match op_type {
            TokenType::Plus => {
                self.chunk.write_opcode(OpCode::Add, line);
            },
            TokenType::Minus => {
                self.chunk.write_opcode(OpCode::Subtract, line);
            },
            TokenType::Star => {
                self.chunk.write_opcode(OpCode::Multiply, line);
            },
            TokenType::Slash => {
                self.chunk.write_opcode(OpCode::Divide, line);
            },
            _ => {},
        }
    }

    fn dispatch(&mut self, action: ParseFn)
        requires
            old(self).scanner.wf(),
            old(self).previous is Some,
        ensures
            final(self).kept(*old(self)),
            final(self).model() == apply(old(self).src(), old(self).model(), action),
        decreases old(self).left(), 3int,
    {
        match action {
            ParseFn::Unary => self.unary(),
            ParseFn::Binary => self.binary(),
            ParseFn::Grouping => self.grouping(),
            ParseFn::Number => self.number(),
        }
    }

    fn parse_precedence(&mut self, precedence: &Precedence)
        requires
            old(self).scanner.wf(),
        ensures
            final(self).kept(*old(self)),
            final(self).model() == parse_precedence(
                old(self).src(),
                old(self).model(),
                *precedence,
            ),
        decreases old(self).left(), 0int,
    {
        let ghost src = self.src();
        let ghost entry = self.model();
        let current = match self.current {
            Some(token) => token,
            None => {
                self.advance();
                return ;
            },
        };
        let prefix_rule = match Self::get_rule(current.kind).prefix {
            Some(action) => action,
            None => {
                self.advance();
                self.report(
                    ParserError::AtToken {
                        line: current.line,
                        location: current.lexeme,
                        msg: "Expect expression.",
                    },
                );
                return ;
            },
        };
        self.panic_mode = false;
        proof {
            lemma_advance(src, self.model());
        }
        self.advance();
        proof {
            lemma_apply(src, self.model(), prefix_rule);
        }
        self.dispatch(prefix_rule);
        let ghost target = operators(src, self.model(), *precedence);
        loop
            invariant_except_break
                target == operators(src, self.model(), *precedence),
                self.current is Some,
                sound(src, self.model()),
                0 <= self.left() < remaining(src, entry),
            invariant
                self.kept(*old(self)),
                src == old(self).src(),
                entry == old(self).model(),
            ensures
                self.kept(*old(self)),
                self.model() == target,
            decreases self.left(),
        {
            let current = match self.current {
                Some(token) => token,
                None => {
                    break ;
                },
            };
            let rule = Self::get_rule(current.kind);
            if rule.precedence.rank() < precedence.rank() {
                break ;
            }
            let infix_rule = match rule.infix {
                Some(action) => action,
                None => {
                    self.advance();
                    break ;
                },
            };
            self.panic_mode = false;
            proof {
                lemma_advance(src, self.model());
            }
            self.advance();
            proof {
                lemma_apply(src, self.model(), infix_rule);
            }
            self.dispatch(infix_rule);
        }
    }
}

/// Compiles `source`, one expression, into `chunk`, and gives every
/// diagnostic that was reported on the way, in the order of the source. The
/// whole source is parsed whatever is wrong with it, and the chunk then ends
/// in a `Return` all the same. A diagnostic that follows another without a
/// token consumed between them is held back.
pub fn diagnose<'src>(source: &'src str, chunk: &'src mut Chunk) -> (errors: Vec<
    ParserError<'src>,
>)
    requires
        fits(source@),
    ensures
        ({
            let end = finish(
                source@,
                start(old(chunk).codes@, old(chunk).lines@, old(chunk).constants@),
            );
            &&& final(chunk).codes@ == end.codes
            &&& final(chunk).lines@ == end.lines
            &&& final(chunk).constants@ == end.constants
            &&& texts(errors@) == end.diagnostics
        }),
        old(chunk).well_formed() ==> final(chunk).well_formed(),
{
    let mut owned = Chunk::new();
    std::mem::swap(chunk, &mut owned);
    let scanner = Scanner::new(source);
    let mut parser = Parser::new(scanner, owned);
    parser.advance();
    parser.expression();
    parser.consume(TokenType::Eof, "Expect end of expression.");
    match parser.previous {
        Some(token) => {
            parser.chunk.write_opcode(OpCode::Return, token.line);
        },
        None => {},
    }
    let Parser { chunk: done, diagnostics, .. } = parser;
    *chunk = done;
    diagnostics
}

/// Compiles `source`, one expression, into `chunk`. The compilation fails
/// where a diagnostic was reported, and the error is the first of them.
pub fn compile<'src>(source: &'src str, chunk: &'src mut Chunk) -> (r: Result<
    (),
    ParserError<'src>,
>)
    requires
        fits(source@),
    ensures
        ({
            let end = finish(
                source@,
                start(old(chunk).codes@, old(chunk).lines@, old(chunk).constants@),
            );
            &&& final(chunk).codes@ == end.codes
            &&& final(chunk).lines@ == end.lines
            &&& final(chunk).constants@ == end.constants
            &&& match r {
                Ok(()) => end.diagnostics.len() == 0,
                Err(error) => end.diagnostics.len() > 0 && error@ == end.diagnostics[0],
            }
        }),
        old(chunk).well_formed() ==> final(chunk).well_formed(),
{
    let errors = diagnose(source, chunk);
    if errors.len() > 0 {
        Err(errors[0])
    } else {
        Ok(())
    }
}

} // verus!
