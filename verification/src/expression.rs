//! Arithmetic expressions as trees, and what compiling and running one
//! amounts to.
use crate::chunk::OpCode;
use crate::compiler::{
    accept, advance, apply, binary_code, emit, emit_constant, lemma_advance, lemma_apply, operators,
    parse_precedence, rank, rule_of, start, tighter, Parse, ParseFn, Precedence, Seen,
};
use crate::number::{
    ieee_difference, ieee_parse, ieee_product, ieee_quotient, ieee_sum, negated,
};
use crate::scanner::{lemma_end, lemma_scan, line_at, scan, TokenType};
use crate::value::Value;
use crate::vm::{compiled, interpreted, run_from, step, InterpretError, Step};
use vstd::prelude::*;

verus! {

/// An arithmetic expression. Each node holds the tokens that it was written
/// with.
pub enum Expr {
    /// A number literal.
    Literal(Seen),
    /// An expression between parentheses.
    Group(Seen, Box<Expr>, Seen),
    /// `-` before an expression.
    Negate(Seen, Box<Expr>),
    /// Two expressions with one of `+`, `-`, `*`, `/` between them.
    Binary(Box<Expr>, Seen, Box<Expr>),
}

impl Expr {
    /// How many tokens the expression is written with.
    pub open spec fn size(self) -> nat
        decreases self,
    {
        match self {
            Expr::Literal(_) => 1,
            Expr::Group(_, inner, _) => inner.size() + 2,
            Expr::Negate(_, inner) => inner.size() + 1,
            Expr::Binary(left, _, right) => left.size() + 1 + right.size(),
        }
    }

    /// How tightly the outermost operator binds; a literal and a group bind
    /// tightest.
    pub open spec fn binds(self) -> Precedence {
        match self {
            Expr::Literal(_) => Precedence::Primary,
            Expr::Group(_, _, _) => Precedence::Primary,
            Expr::Negate(_, _) => Precedence::Unary,
            Expr::Binary(_, operator, _) => rule_of(operator.kind).precedence,
        }
    }

    /// Whether the tree is what its tokens say, read with `-` before an
    /// operand binding tighter than `*` and `/`, those tighter than `+` and
    /// `-` between operands, operators of one level grouping to the left, and
    /// parentheses overriding all of this.
    pub open spec fn well_formed(self) -> bool
        decreases self,
    {
        match self {
            Expr::Literal(token) => token.kind == TokenType::Number && ieee_parse(token.lexeme)
                is Some,
            Expr::Group(open, inner, close) => {
                &&& open.kind == TokenType::LeftParen
                &&& close.kind == TokenType::RightParen
                &&& inner.well_formed()
            },
            Expr::Negate(minus, inner) => {
                &&& minus.kind == TokenType::Minus
                &&& inner.well_formed()
                &&& rank(inner.binds()) >= rank(Precedence::Unary)
            },
            Expr::Binary(left, operator, right) => {
                &&& binary_code(operator.kind) is Some
                &&& left.well_formed()
                &&& right.well_formed()
                &&& rank(left.binds()) >= rank(rule_of(operator.kind).precedence)
                &&& rank(right.binds()) > rank(rule_of(operator.kind).precedence)
            },
        }
    }

    /// The double that the expression evaluates to.
    pub open spec fn value(self) -> u64
        decreases self,
    {
        match self {
            Expr::Literal(token) => ieee_parse(token.lexeme)->0,
            Expr::Group(_, inner, _) => inner.value(),
            Expr::Negate(_, inner) => negated(inner.value()),
            Expr::Binary(left, operator, right) => match operator.kind {
                TokenType::Plus => ieee_sum(left.value(), right.value()),
                TokenType::Minus => ieee_difference(left.value(), right.value()),
                TokenType::Star => ieee_product(left.value(), right.value()),
                _ => ieee_quotient(left.value(), right.value()),
            },
        }
    }

    /// The chunk of `st` with the code of the expression behind it:
    /// operands first, then the operator.
    pub open spec fn written(self, st: Parse) -> Parse
        decreases self,
    {
        match self {
            Expr::Literal(token) => emit_constant(
                st,
                Value::Number(ieee_parse(token.lexeme)->0),
                token.line,
            ),
            Expr::Group(_, inner, _) => inner.written(st),
            Expr::Negate(minus, inner) => emit(inner.written(st), OpCode::Negate, minus.line),
            Expr::Binary(left, operator, right) => emit(
                right.written(left.written(st)),
                binary_code(operator.kind)->0,
                operator.line,
            ),
        }
    }
}

/// Where the scanner stands in `src` after `count` tokens.
pub open spec fn position(src: Seq<char>, count: nat) -> int
    decreases count,
{
    if count == 0 {
        0
    } else {
        scan(src, position(src, (count - 1) as nat)).end
    }
}

/// Token number `index` of `src`, counted from 0.
pub open spec fn token(src: Seq<char>, index: nat) -> Seen {
    let lexed = scan(src, position(src, index));
    Seen { kind: lexed.kind, lexeme: lexed.lexeme, line: line_at(src, lexed.end) as i32 }
}

/// Whether the tokens of `src` from number `first` on are those of
/// `expression`.
pub open spec fn spans(src: Seq<char>, expression: Expr, first: nat) -> bool
    decreases expression,
{
    match expression {
        Expr::Literal(literal) => token(src, first) == literal,
        Expr::Group(open, inner, close) => {
            &&& token(src, first) == open
            &&& spans(src, *inner, first + 1)
            &&& token(src, first + 1 + inner.size()) == close
        },
        Expr::Negate(minus, inner) => {
            &&& token(src, first) == minus
            &&& spans(src, *inner, first + 1)
        },
        Expr::Binary(left, operator, right) => {
            &&& spans(src, *left, first)
            &&& token(src, first + left.size()) == operator
            &&& spans(src, *right, first + left.size() + 1)
        },
    }
}

/// Whether `src` is `expression` and nothing else: its tokens are those of
/// the expression, and then the input ends.
pub open spec fn spells(src: Seq<char>, expression: Expr) -> bool {
    &&& spans(src, expression, 0)
    &&& token(src, expression.size()).kind == TokenType::Eof
}

/// The state of a parser that, from `st` with token number `first` under
/// inspection, has consumed `expression` and nothing else: its code is
/// written, no diagnostic is added, and the token behind the expression is
/// under inspection.
pub open spec fn parsed(src: Seq<char>, st: Parse, expression: Expr, first: nat) -> Parse {
    let done = expression.written(st);
    Parse {
        pos: position(src, first + expression.size() + 1),
        current: Some(token(src, first + expression.size())),
        previous: Some(token(src, (first + expression.size() - 1) as nat)),
        panic_mode: false,
        diagnostics: st.diagnostics,
        codes: done.codes,
        lines: done.lines,
        constants: done.constants,
    }
}

/// The scanner never leaves the source.
pub proof fn lemma_position(src: Seq<char>, count: nat)
    ensures
        0 <= position(src, count) <= src.len(),
    decreases count,
{
    if count > 0 {
        lemma_position(src, (count - 1) as nat);
        lemma_scan(src, position(src, (count - 1) as nat));
    }
}

/// No token binds tighter than `*` and `/`.
pub proof fn lemma_loosest(kind: TokenType)
    ensures
        rank(rule_of(kind).precedence) <= rank(Precedence::Factor),
{
}

/// Writing an expression changes the chunk and nothing else, and what it
/// writes depends on the chunk alone.
pub proof fn lemma_written(expression: Expr, st: Parse, other: Parse)
    requires
        st.codes == other.codes,
        st.lines == other.lines,
        st.constants == other.constants,
    ensures
        expression.written(st).codes == expression.written(other).codes,
        expression.written(st).lines == expression.written(other).lines,
        expression.written(st).constants == expression.written(other).constants,
        expression.written(st).pos == st.pos,
        expression.written(st).current == st.current,
        expression.written(st).previous == st.previous,
        expression.written(st).panic_mode == st.panic_mode,
        expression.written(st).diagnostics == st.diagnostics,
    decreases expression,
{
    match expression {
        Expr::Literal(_) => {},
        Expr::Group(_, inner, _) => {
            lemma_written(*inner, st, other);
        },
        Expr::Negate(_, inner) => {
            lemma_written(*inner, st, other);
        },
        Expr::Binary(left, _, right) => {
            lemma_written(*left, st, other);
            lemma_written(*right, left.written(st), left.written(other));
        },
    }
}

/// A well-formed expression binds as `+` does, or tighter.
pub proof fn lemma_binds(expression: Expr)
    requires
        expression.well_formed(),
    ensures
        rank(expression.binds()) >= rank(Precedence::Term),
{
}

/// An expression begins with a token that can begin one.
pub proof fn lemma_first(src: Seq<char>, expression: Expr, first: nat)
    requires
        expression.well_formed(),
        spans(src, expression, first),
    ensures
        rule_of(token(src, first).kind).prefix is Some,
        token(src, first).kind != TokenType::Error,
        token(src, first).kind != TokenType::Eof,
    decreases expression,
{
    match expression {
        Expr::Binary(left, _, _) => {
            lemma_first(src, *left, first);
        },
        _ => {},
    }
}

/// Consuming a token puts the next one under inspection, where that is no
/// error.
pub proof fn lemma_take(src: Seq<char>, st: Parse, index: nat)
    requires
        st.pos == position(src, index),
        token(src, index).kind != TokenType::Error,
    ensures
        advance(src, accept(st)) == (Parse {
            pos: position(src, index + 1),
            current: Some(token(src, index)),
            previous: st.current,
            panic_mode: false,
            ..st
        }),
{
}

/// What `lemma_parses` asks of its arguments.
pub open spec fn ready(
    src: Seq<char>,
    st: Parse,
    expression: Expr,
    first: nat,
    level: Precedence,
) -> bool {
    &&& st.pos == position(src, first + 1)
    &&& st.current == Some(token(src, first))
    &&& expression.well_formed()
    &&& spans(src, expression, first)
    &&& token(src, first + expression.size()).kind != TokenType::Error
    &&& rank(rule_of(token(src, first + expression.size()).kind).precedence) <= rank(
        expression.binds(),
    )
    &&& rank(level) <= rank(expression.binds())
}

/// Parsing from the first token of a well-formed expression comes to
/// taking operators behind that expression, provided that the expression
/// binds at least as tightly as is asked for and as the token behind it.
pub proof fn lemma_parses(src: Seq<char>, st: Parse, expression: Expr, first: nat, level: Precedence)
    requires
        ready(src, st, expression, first, level),
    ensures
        parse_precedence(src, st, level) == operators(
            src,
            parsed(src, st, expression, first),
            level,
        ),
    decreases expression, 1int,
{
    match expression {
        Expr::Literal(_) => {
            lemma_parses_literal(src, st, expression, first, level);
        },
        Expr::Group(_, _, _) => {
            lemma_parses_group(src, st, expression, first, level);
        },
        Expr::Negate(_, _) => {
            lemma_parses_negate(src, st, expression, first, level);
        },
        Expr::Binary(_, _, _) => {
            lemma_parses_binary(src, st, expression, first, level);
        },
    }
}

/// Parsing past the first token of an expression, where what that token
/// calls for leaves the parser behind the expression.
proof fn lemma_prefix(src: Seq<char>, st: Parse, expression: Expr, first: nat, level: Precedence)
    requires
        ready(src, st, expression, first, level),
        token(src, first + 1).kind != TokenType::Error,
        apply(src, advance(src, accept(st)), rule_of(token(src, first).kind).prefix->0) == parsed(
            src,
            st,
            expression,
            first,
        ),
    ensures
        parse_precedence(src, st, level) == operators(
            src,
            parsed(src, st, expression, first),
            level,
        ),
{
    lemma_position(src, first + 1);
    lemma_first(src, expression, first);
    lemma_advance(src, accept(st));
    lemma_take(src, st, first + 1);
    lemma_apply(src, advance(src, accept(st)), rule_of(token(src, first).kind).prefix->0);
}

proof fn lemma_parses_literal(
    src: Seq<char>,
    st: Parse,
    expression: Expr,
    first: nat,
    level: Precedence,
)
    requires
        ready(src, st, expression, first, level),
        expression is Literal,
    ensures
        parse_precedence(src, st, level) == operators(
            src,
            parsed(src, st, expression, first),
            level,
        ),
    decreases expression, 0int,
{
    lemma_take(src, st, first + 1);
    lemma_prefix(src, st, expression, first, level);
}

proof fn lemma_parses_group(
    src: Seq<char>,
    st: Parse,
    expression: Expr,
    first: nat,
    level: Precedence,
)
    requires
        ready(src, st, expression, first, level),
        expression is Group,
    ensures
        parse_precedence(src, st, level) == operators(
            src,
            parsed(src, st, expression, first),
            level,
        ),
    decreases expression, 0int,
{
    let inner = *expression->Group_1;
    lemma_binds(inner);
    lemma_first(src, inner, first + 1);
    lemma_take(src, st, first + 1);
    let taken = advance(src, accept(st));
    lemma_parses(src, taken, inner, first + 1, Precedence::Assignment);
    let inside = parsed(src, taken, inner, first + 1);
    assert(operators(src, inside, Precedence::Assignment) == inside);
    lemma_take(src, inside, first + inner.size() + 2);
    lemma_written(inner, taken, st);
    assert(apply(src, taken, ParseFn::Grouping) == parsed(src, st, expression, first));
    lemma_prefix(src, st, expression, first, level);
}

proof fn lemma_parses_negate(
    src: Seq<char>,
    st: Parse,
    expression: Expr,
    first: nat,
    level: Precedence,
)
    requires
        ready(src, st, expression, first, level),
        expression is Negate,
    ensures
        parse_precedence(src, st, level) == operators(
            src,
            parsed(src, st, expression, first),
            level,
        ),
    decreases expression, 0int,
{
    let inner = *expression->Negate_1;
    lemma_first(src, inner, first + 1);
    lemma_take(src, st, first + 1);
    let taken = advance(src, accept(st));
    lemma_loosest(token(src, first + expression.size()).kind);
    lemma_parses(src, taken, inner, first + 1, Precedence::Unary);
    let inside = parsed(src, taken, inner, first + 1);
    assert(operators(src, inside, Precedence::Unary) == inside);
    lemma_written(inner, taken, st);
    assert(apply(src, taken, ParseFn::Unary) == parsed(src, st, expression, first));
    lemma_prefix(src, st, expression, first, level);
}

proof fn lemma_parses_binary(
    src: Seq<char>,
    st: Parse,
    expression: Expr,
    first: nat,
    level: Precedence,
)
    requires
        ready(src, st, expression, first, level),
        expression is Binary,
    ensures
        parse_precedence(src, st, level) == operators(
            src,
            parsed(src, st, expression, first),
            level,
        ),
    decreases expression, 0int,
{
    let left = *expression->Binary_0;
    let operator = expression->Binary_1;
    let right = *expression->Binary_2;
    let tight = tighter(rule_of(operator.kind).precedence)->0;
    lemma_parses(src, st, left, first, level);
    let before = parsed(src, st, left, first);
    lemma_position(src, first + left.size() + 1);
    lemma_first(src, right, first + left.size() + 1);
    lemma_take(src, before, first + left.size() + 1);
    lemma_advance(src, accept(before));
    let taken = advance(src, accept(before));
    lemma_apply(src, taken, ParseFn::Binary);
    lemma_parses(src, taken, right, first + left.size() + 1, tight);
    let inside = parsed(src, taken, right, first + left.size() + 1);
    assert(operators(src, inside, tight) == inside);
    lemma_written(left, st, st);
    lemma_written(right, taken, left.written(st));
    let operand = apply(src, taken, ParseFn::Binary);
    assert(operand == parsed(src, st, expression, first));
    assert(operators(src, before, level) == operators(src, operand, level));
}

/// Whether `long` begins with `short`.
pub open spec fn extends<T>(long: Seq<T>, short: Seq<T>) -> bool {
    &&& short.len() <= long.len()
    &&& forall|i: int| 0 <= i < short.len() ==> long[i] == short[i]
}

/// Writing an expression only appends: at least one instruction, and at
/// most one constant per token.
pub proof fn lemma_appends(expression: Expr, st: Parse)
    ensures
        extends(expression.written(st).codes, st.codes),
        extends(expression.written(st).constants, st.constants),
        expression.written(st).codes.len() > st.codes.len(),
        expression.written(st).constants.len() <= st.constants.len() + expression.size(),
    decreases expression,
{
    match expression {
        Expr::Literal(_) => {},
        Expr::Group(_, inner, _) => {
            lemma_appends(*inner, st);
        },
        Expr::Negate(_, inner) => {
            lemma_appends(*inner, st);
        },
        Expr::Binary(left, _, right) => {
            lemma_appends(*left, st);
            lemma_appends(*right, left.written(st));
        },
    }
}

/// Running the code of a well-formed expression pushes its value and goes
/// on behind it.
pub proof fn lemma_runs(
    expression: Expr,
    st: Parse,
    codes: Seq<OpCode>,
    constants: Seq<Value>,
    stack: Seq<Value>,
)
    requires
        expression.well_formed(),
        extends(codes, expression.written(st).codes),
        extends(constants, expression.written(st).constants),
        constants.len() <= usize::MAX,
    ensures
        run_from(codes, constants, st.codes.len() as int, stack) == run_from(
            codes,
            constants,
            expression.written(st).codes.len() as int,
            stack.push(Value::Number(expression.value())),
        ),
    decreases expression,
{
    lemma_appends(expression, st);
    match expression {
        Expr::Literal(literal) => {
            let at = st.codes.len() as int;
            assert(codes[at] == expression.written(st).codes[at]);
            assert(constants[st.constants.len() as int] == expression.written(
                st,
            ).constants[st.constants.len() as int]);
        },
        Expr::Group(_, inner, _) => {
            lemma_runs(*inner, st, codes, constants, stack);
        },
        Expr::Negate(minus, inner) => {
            let operand = inner.written(st);
            lemma_appends(*inner, st);
            lemma_runs(*inner, st, codes, constants, stack);
            let at = operand.codes.len() as int;
            assert(codes[at] == expression.written(st).codes[at]);
            let pushed = stack.push(Value::Number(inner.value()));
            assert(pushed.drop_last() =~= stack);
        },
        Expr::Binary(left, operator, right) => {
            let first = left.written(st);
            let second = right.written(first);
            lemma_appends(*left, st);
            lemma_appends(*right, first);
            lemma_runs(*left, st, codes, constants, stack);
            let one = stack.push(Value::Number(left.value()));
            lemma_runs(*right, first, codes, constants, one);
            let two = one.push(Value::Number(right.value()));
            let at = second.codes.len() as int;
            assert(codes[at] == expression.written(st).codes[at]);
            assert(two.drop_last() =~= one);
            assert(one.drop_last() =~= stack);
        },
    }
}

/// The tokens of an expression are there: none of them is the end of the
/// input.
pub proof fn lemma_present(src: Seq<char>, expression: Expr, first: nat, index: nat)
    requires
        expression.well_formed(),
        spans(src, expression, first),
        first <= index < first + expression.size(),
    ensures
        token(src, index).kind != TokenType::Eof,
    decreases expression,
{
    match expression {
        Expr::Literal(_) => {},
        Expr::Group(_, inner, _) => {
            if first < index < first + 1 + inner.size() {
                lemma_present(src, *inner, first + 1, index);
            }
        },
        Expr::Negate(_, inner) => {
            if first < index {
                lemma_present(src, *inner, first + 1, index);
            }
        },
        Expr::Binary(left, _, right) => {
            if index < first + left.size() {
                lemma_present(src, *left, first, index);
            } else if index > first + left.size() {
                lemma_present(src, *right, first + left.size() + 1, index);
            }
        },
    }
}

/// Tokens take room: behind `count` tokens, none of them the end of the
/// input, the scanner has read `count` characters or more.
pub proof fn lemma_room(src: Seq<char>, count: nat)
    requires
        forall|i: nat| i < count ==> (#[trigger] token(src, i)).kind != TokenType::Eof,
    ensures
        count <= position(src, count) <= src.len(),
    decreases count,
{
    lemma_position(src, count);
    if count > 0 {
        let before = (count - 1) as nat;
        lemma_room(src, before);
        lemma_position(src, before);
        lemma_scan(src, position(src, before));
        assert(token(src, before).kind != TokenType::Eof);
    }
}

/// A source that is one well-formed arithmetic expression compiles without
/// a diagnostic, to the code of the expression and a `Return` on the line
/// where the input ends.
pub proof fn lemma_compiles(src: Seq<char>, expression: Expr)
    requires
        expression.well_formed(),
        spells(src, expression),
    ensures
        ({
            let unit = compiled(src);
            let code = expression.written(start(Seq::empty(), Seq::empty(), Seq::empty()));
            &&& unit.diagnostics.len() == 0
            &&& unit.codes == code.codes.push(OpCode::Return)
            &&& unit.lines == code.lines.push(token(src, expression.size()).line)
            &&& unit.constants == code.constants
        }),
{
    let empty = start(Seq::empty(), Seq::empty(), Seq::empty());
    let size = expression.size();
    lemma_first(src, expression, 0);
    lemma_binds(expression);
    lemma_take(src, empty, 0);
    let begun = advance(src, empty);
    assert(accept(empty) == empty);
    lemma_parses(src, begun, expression, 0, Precedence::Assignment);
    let body = parsed(src, begun, expression, 0);
    assert(operators(src, body, Precedence::Assignment) == body);
    lemma_position(src, size);
    lemma_end(src, position(src, size));
    lemma_take(src, body, size + 1);
    lemma_written(expression, begun, empty);
}

/// A source that is one well-formed arithmetic expression evaluates to the
/// value of that expression, and leaves the stack as it was.
pub proof fn lemma_evaluates(src: Seq<char>, expression: Expr, stack: Seq<Value>)
    requires
        src.len() <= usize::MAX,
        expression.well_formed(),
        spells(src, expression),
    ensures
        interpreted(src, stack) == (
            Ok::<Option<Value>, InterpretError>(Some(Value::Number(expression.value()))),
            stack,
        ),
{
    let empty = start(Seq::empty(), Seq::empty(), Seq::empty());
    let size = expression.size();
    lemma_compiles(src, expression);
    let unit = compiled(src);
    let done = expression.written(empty);
    lemma_appends(expression, empty);
    assert forall|i: nat| i < size implies (#[trigger] token(src, i)).kind != TokenType::Eof by {
        lemma_present(src, expression, 0, i);
    }
    lemma_room(src, size);
    lemma_runs(expression, empty, unit.codes, unit.constants, stack);
    let pushed = stack.push(Value::Number(expression.value()));
    assert(pushed.drop_last() =~= stack);
    assert(step(unit.codes[done.codes.len() as int], unit.constants, pushed) == Step::Finish(
        Value::Number(expression.value()),
        stack,
    ));
}

} // verus!
