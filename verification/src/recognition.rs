//! What compiles is an expression: a source without a diagnostic is one
//! well-formed arithmetic expression.
use crate::compiler::{
    accept, advance, apply, at_token, consume, lemma_advance, lemma_apply, next_token, number,
    operators, parse_precedence, rank, remaining, report, rule_of, start, tighter, Diagnostic,
    Parse, ParseFn, Precedence, Seen,
};
use crate::expression::{
    extends, lemma_compiles, lemma_evaluates, lemma_loosest, lemma_position, lemma_take,
    lemma_written, parsed, position, spans, spells, token, Expr,
};
use crate::number::ieee_parse;
use crate::scanner::{lemma_scan, line_at, scan, TokenType};
use crate::value::Value;
use crate::vm::{compiled, interpreted, InterpretError};
use vstd::prelude::*;

verus! {

/// Whether `after` holds the diagnostics of `before`, and maybe more behind
/// them.
pub open spec fn grown(after: Parse, before: Parse) -> bool {
    extends(after.diagnostics, before.diagnostics)
}

/// Reporting only adds a diagnostic, and adds one unless diagnostics are
/// held back.
pub proof fn lemma_report_grows(st: Parse, diagnostic: Diagnostic)
    ensures
        grown(report(st, diagnostic), st),
        !st.panic_mode ==> report(st, diagnostic).diagnostics.len() == st.diagnostics.len() + 1,
{
}

/// Scanning on only adds diagnostics.
pub proof fn lemma_next_token_grows(src: Seq<char>, st: Parse)
    ensures
        grown(next_token(src, st), st),
    decreases src.len() - st.pos,
{
    let lexed = scan(src, st.pos);
    if lexed.kind == TokenType::Error && st.pos < lexed.end <= src.len() {
        let token = Seen {
            kind: lexed.kind,
            lexeme: lexed.lexeme,
            line: line_at(src, lexed.end) as i32,
        };
        let reported = report(Parse { pos: lexed.end, ..st }, at_token(token, token.lexeme));
        lemma_next_token_grows(src, reported);
    }
}

/// Consuming a token only adds diagnostics.
pub proof fn lemma_advance_grows(src: Seq<char>, st: Parse)
    ensures
        grown(advance(src, st), st),
        grown(advance(src, accept(st)), st),
{
    lemma_next_token_grows(src, Parse { previous: st.current, ..st });
    lemma_next_token_grows(src, Parse { previous: st.current, ..accept(st) });
}

/// Parsing only adds diagnostics.
pub proof fn lemma_parse_precedence_grows(src: Seq<char>, st: Parse, level: Precedence)
    ensures
        grown(parse_precedence(src, st, level), st),
    decreases remaining(src, st), 0int,
{
    lemma_advance_grows(src, st);
    match st.current {
        Some(token) => match rule_of(token.kind).prefix {
            Some(action) => {
                let first = advance(src, accept(st));
                if 0 <= remaining(src, first) < remaining(src, st) {
                    lemma_apply_grows(src, first, action);
                    let operand = apply(src, first, action);
                    if 0 <= remaining(src, operand) < remaining(src, st) {
                        lemma_operators_grows(src, operand, level);
                    }
                }
            },
            None => {},
        },
        None => {},
    }
}

/// Taking operators only adds diagnostics.
pub proof fn lemma_operators_grows(src: Seq<char>, st: Parse, level: Precedence)
    ensures
        grown(operators(src, st, level), st),
    decreases remaining(src, st), 2int,
{
    lemma_advance_grows(src, st);
    match st.current {
        Some(token) => {
            let rule = rule_of(token.kind);
            if rank(rule.precedence) >= rank(level) {
                match rule.infix {
                    Some(action) => {
                        let taken = advance(src, accept(st));
                        if 0 <= remaining(src, taken) < remaining(src, st) {
                            lemma_apply_grows(src, taken, action);
                            let operand = apply(src, taken, action);
                            if 0 <= remaining(src, operand) < remaining(src, st) {
                                lemma_operators_grows(src, operand, level);
                            }
                        }
                    },
                    None => {},
                }
            }
        },
        None => {},
    }
}

/// An action only adds diagnostics.
pub proof fn lemma_apply_grows(src: Seq<char>, st: Parse, action: ParseFn)
    ensures
        grown(apply(src, st, action), st),
    decreases remaining(src, st), 1int,
{
    match st.previous {
        Some(token) => match action {
            ParseFn::Number => {},
            ParseFn::Grouping => {
                lemma_parse_precedence_grows(src, st, Precedence::Assignment);
                lemma_advance_grows(src, parse_precedence(src, st, Precedence::Assignment));
            },
            ParseFn::Unary => {
                lemma_parse_precedence_grows(src, st, Precedence::Unary);
            },
            ParseFn::Binary => match tighter(rule_of(token.kind).precedence) {
                Some(level) => {
                    lemma_parse_precedence_grows(src, st, level);
                },
                None => {},
            },
        },
        None => {},
    }
}

/// A sequence that begins with another and is no longer is that other.
pub proof fn lemma_squeeze<T>(long: Seq<T>, short: Seq<T>)
    requires
        extends(long, short),
        long.len() <= short.len(),
    ensures
        long == short,
{
    assert(long =~= short);
}

/// Whether the parser in state `st` has token number `index` under
/// inspection, has scanned no further, and holds no diagnostic back.
pub open spec fn clean(src: Seq<char>, st: Parse, index: nat) -> bool {
    &&& st.pos == position(src, index + 1)
    &&& st.current == Some(token(src, index))
    &&& !st.panic_mode
}

/// A token that is consumed without a diagnostic has no error behind it.
pub proof fn lemma_quiet_advance(src: Seq<char>, st: Parse, index: nat)
    requires
        st.pos == position(src, index),
        !st.panic_mode,
        advance(src, st).diagnostics.len() <= st.diagnostics.len(),
    ensures
        token(src, index).kind != TokenType::Error,
{
    lemma_position(src, index);
    lemma_scan(src, st.pos);
    let lexed = scan(src, st.pos);
    if lexed.kind == TokenType::Error {
        let seen = Seen {
            kind: lexed.kind,
            lexeme: lexed.lexeme,
            line: line_at(src, lexed.end) as i32,
        };
        let moved = Parse { pos: lexed.end, previous: st.current, ..st };
        let reported = report(moved, at_token(seen, seen.lexeme));
        lemma_next_token_grows(src, reported);
    }
}

/// What holds once a token that starts an expression is consumed without a
/// diagnostic: the next token is under inspection, and less is left to
/// read.
pub proof fn lemma_opening(src: Seq<char>, st: Parse, index: nat)
    requires
        clean(src, st, index),
        token(src, index).kind != TokenType::Eof,
        advance(src, accept(st)).diagnostics.len() <= st.diagnostics.len(),
    ensures
        clean(src, advance(src, accept(st)), index + 1),
        advance(src, accept(st)) == (Parse {
            pos: position(src, index + 2),
            current: Some(token(src, index + 1)),
            previous: st.current,
            panic_mode: false,
            ..st
        }),
        0 <= remaining(src, advance(src, accept(st))) < remaining(src, st),
        token(src, index + 1).kind != TokenType::Error,
{
    lemma_position(src, index + 1);
    lemma_quiet_advance(src, accept(st), index + 1);
    lemma_take(src, st, index + 1);
    lemma_advance(src, accept(st));
}

/// What `lemma_reads` asks of its arguments: the parser stands cleanly at
/// the token where it is to parse, at one of the levels that the compiler
/// parses at, and parsing reports no diagnostic.
pub open spec fn read(src: Seq<char>, st: Parse, index: nat, level: Precedence) -> bool {
    &&& clean(src, st, index)
    &&& rank(Precedence::Assignment) <= rank(level) <= rank(Precedence::Unary)
    &&& parse_precedence(src, st, level).diagnostics.len() <= st.diagnostics.len()
}

/// What `lemma_reads` and `lemma_extends` tell of the expression they
/// find: it is well formed, it is what the tokens from number `index` on
/// say, it binds as tightly as was asked for, and the token behind it is no
/// error and binds less tightly than was asked for.
pub open spec fn found(
    src: Seq<char>,
    expression: Expr,
    index: nat,
    level: Precedence,
) -> bool {
    &&& expression.well_formed()
    &&& spans(src, expression, index)
    &&& rank(level) <= rank(expression.binds())
    &&& token(src, index + expression.size()).kind != TokenType::Error
    &&& rank(rule_of(token(src, index + expression.size()).kind).precedence) < rank(level)
}

/// Where parsing reports no diagnostic, it has parsed a well-formed
/// expression and stands behind it.
pub proof fn lemma_reads(src: Seq<char>, st: Parse, index: nat, level: Precedence) -> (expression:
    Expr)
    requires
        read(src, st, index, level),
    ensures
        found(src, expression, index, level),
        parse_precedence(src, st, level) == parsed(src, st, expression, index),
    decreases remaining(src, st), 2int,
{
    lemma_position(src, index + 1);
    let first_token = token(src, index);
    lemma_advance_grows(src, st);
    if rule_of(first_token.kind).prefix is None {
        let moved = advance(src, st);
        lemma_report_grows(moved, at_token(first_token, "Expect expression."@));
        if moved.diagnostics.len() <= st.diagnostics.len() {
            lemma_quiet_advance(src, st, index + 1);
        }
        assert(false);
    }
    let action = rule_of(first_token.kind).prefix->0;
    let first = advance(src, accept(st));
    lemma_advance(src, accept(st));
    lemma_apply(src, first, action);
    lemma_apply_grows(src, first, action);
    let operand = apply(src, first, action);
    lemma_operators_grows(src, operand, level);
    lemma_squeeze(operand.diagnostics, st.diagnostics);
    let head = lemma_head(src, st, index);
    lemma_loosest(token(src, index + head.size()).kind);
    lemma_extends(src, st, operand, head, index, level)
}

/// What `lemma_head` asks of its arguments.
pub open spec fn opened(src: Seq<char>, st: Parse, index: nat) -> bool {
    &&& clean(src, st, index)
    &&& rule_of(token(src, index).kind).prefix is Some
    &&& apply(
        src,
        advance(src, accept(st)),
        rule_of(token(src, index).kind).prefix->0,
    ).diagnostics.len() <= st.diagnostics.len()
}

/// What `lemma_head` tells of the expression it finds.
pub open spec fn headed(src: Seq<char>, st: Parse, head: Expr, index: nat) -> bool {
    &&& head.well_formed()
    &&& spans(src, head, index)
    &&& rank(head.binds()) >= rank(Precedence::Unary)
    &&& token(src, index + head.size()).kind != TokenType::Error
    &&& apply(src, advance(src, accept(st)), rule_of(token(src, index).kind).prefix->0)
        == parsed(src, st, head, index)
}

/// The token under inspection starts an expression, and what it calls for
/// is done without a diagnostic: then a literal, a group or a negation was
/// parsed.
pub proof fn lemma_head(src: Seq<char>, st: Parse, index: nat) -> (head: Expr)
    requires
        opened(src, st, index),
    ensures
        headed(src, st, head, index),
    decreases remaining(src, st), 1int,
{
    match rule_of(token(src, index).kind).prefix->0 {
        ParseFn::Number => lemma_head_literal(src, st, index),
        ParseFn::Grouping => lemma_head_group(src, st, index),
        ParseFn::Unary => lemma_head_negate(src, st, index),
        ParseFn::Binary => {
            assert(false);
            Expr::Literal(token(src, index))
        },
    }
}

proof fn lemma_head_literal(src: Seq<char>, st: Parse, index: nat) -> (head: Expr)
    requires
        opened(src, st, index),
        rule_of(token(src, index).kind).prefix == Some(ParseFn::Number),
    ensures
        headed(src, st, head, index),
{
    let first_token = token(src, index);
    let first = advance(src, accept(st));
    lemma_advance_grows(src, st);
    lemma_apply_grows(src, first, ParseFn::Number);
    lemma_squeeze(first.diagnostics, st.diagnostics);
    lemma_opening(src, st, index);
    if ieee_parse(first_token.lexeme) is None {
        lemma_report_grows(first, at_token(first_token, "Invalid number."@));
        assert(false);
    }
    let head = Expr::Literal(first_token);
    assert(number(first) == parsed(src, st, head, index));
    head
}

proof fn lemma_head_group(src: Seq<char>, st: Parse, index: nat) -> (head: Expr)
    requires
        opened(src, st, index),
        rule_of(token(src, index).kind).prefix == Some(ParseFn::Grouping),
    ensures
        headed(src, st, head, index),
    decreases remaining(src, st), 0int,
{
    let first_token = token(src, index);
    let first = advance(src, accept(st));
    lemma_advance_grows(src, st);
    lemma_apply_grows(src, first, ParseFn::Grouping);
    lemma_squeeze(first.diagnostics, st.diagnostics);
    lemma_opening(src, st, index);
    let inside = parse_precedence(src, first, Precedence::Assignment);
    lemma_parse_precedence_grows(src, first, Precedence::Assignment);
    lemma_closing_grows(src, inside);
    lemma_squeeze(inside.diagnostics, st.diagnostics);
    let inner = lemma_reads(src, first, index + 1, Precedence::Assignment);
    let close = token(src, index + 1 + inner.size());
    lemma_closing(src, inside, index + 1 + inner.size(), st);
    lemma_written(inner, first, st);
    let head = Expr::Group(first_token, Box::new(inner), close);
    assert(head.size() == inner.size() + 2);
    assert(apply(src, first, ParseFn::Grouping) == parsed(src, st, head, index));
    head
}

/// Requiring a closing parenthesis only adds diagnostics.
proof fn lemma_closing_grows(src: Seq<char>, st: Parse)
    ensures
        grown(consume(src, st, TokenType::RightParen, "Expect ')' after expression."@), st),
{
    lemma_advance_grows(src, st);
}

/// A closing parenthesis that is required without a diagnostic is there,
/// and is consumed.
proof fn lemma_closing(src: Seq<char>, st: Parse, index: nat, before: Parse)
    requires
        clean(src, st, index),
        st.diagnostics == before.diagnostics,
        consume(
            src,
            st,
            TokenType::RightParen,
            "Expect ')' after expression."@,
        ).diagnostics.len() <= before.diagnostics.len(),
    ensures
        token(src, index).kind == TokenType::RightParen,
        token(src, index + 1).kind != TokenType::Error,
        consume(src, st, TokenType::RightParen, "Expect ')' after expression."@) == (Parse {
            pos: position(src, index + 2),
            current: Some(token(src, index + 1)),
            previous: st.current,
            panic_mode: false,
            ..st
        }),
{
    let close = token(src, index);
    if close.kind != TokenType::RightParen {
        lemma_report_grows(st, at_token(close, "Expect ')' after expression."@));
        assert(false);
    }
    lemma_opening(src, st, index);
}

proof fn lemma_head_negate(src: Seq<char>, st: Parse, index: nat) -> (head: Expr)
    requires
        opened(src, st, index),
        rule_of(token(src, index).kind).prefix == Some(ParseFn::Unary),
    ensures
        headed(src, st, head, index),
    decreases remaining(src, st), 0int,
{
    let first_token = token(src, index);
    let first = advance(src, accept(st));
    lemma_advance_grows(src, st);
    lemma_apply_grows(src, first, ParseFn::Unary);
    lemma_squeeze(first.diagnostics, st.diagnostics);
    lemma_opening(src, st, index);
    let inside = parse_precedence(src, first, Precedence::Unary);
    lemma_parse_precedence_grows(src, first, Precedence::Unary);
    lemma_squeeze(inside.diagnostics, st.diagnostics);
    let inner = lemma_reads(src, first, index + 1, Precedence::Unary);
    lemma_written(inner, first, st);
    let head = Expr::Negate(first_token, Box::new(inner));
    assert(head.size() == inner.size() + 1);
    assert(apply(src, first, ParseFn::Unary) == parsed(src, st, head, index));
    head
}

/// Behind a well-formed expression, where taking operators reports no
/// diagnostic, the parser has parsed a well-formed expression that begins
/// with the first one, and stands behind it.
pub proof fn lemma_extends(
    src: Seq<char>,
    base: Parse,
    st: Parse,
    left: Expr,
    index: nat,
    level: Precedence,
) -> (expression: Expr)
    requires
        st == parsed(src, base, left, index),
        left.well_formed(),
        spans(src, left, index),
        token(src, index + left.size()).kind != TokenType::Error,
        rank(rule_of(token(src, index + left.size()).kind).precedence) <= rank(left.binds()),
        rank(Precedence::Assignment) <= rank(level) <= rank(Precedence::Unary),
        rank(level) <= rank(left.binds()),
        operators(src, st, level).diagnostics.len() <= st.diagnostics.len(),
    ensures
        found(src, expression, index, level),
        operators(src, st, level) == parsed(src, base, expression, index),
    decreases remaining(src, st), 2int,
{
    let operator = token(src, index + left.size());
    let rule = rule_of(operator.kind);
    if rank(rule.precedence) < rank(level) {
        left
    } else {
        let after = index + left.size();
        let tight = tighter(rule.precedence)->0;
        lemma_position(src, after + 1);
        lemma_advance_grows(src, st);
        let taken = advance(src, accept(st));
        lemma_advance(src, accept(st));
        lemma_apply(src, taken, ParseFn::Binary);
        lemma_apply_grows(src, taken, ParseFn::Binary);
        let operand = apply(src, taken, ParseFn::Binary);
        lemma_operators_grows(src, operand, level);
        lemma_squeeze(operand.diagnostics, st.diagnostics);
        lemma_squeeze(taken.diagnostics, st.diagnostics);
        lemma_opening(src, st, after);
        let inside = parse_precedence(src, taken, tight);
        lemma_parse_precedence_grows(src, taken, tight);
        lemma_squeeze(inside.diagnostics, st.diagnostics);
        let right = lemma_reads(src, taken, after + 1, tight);
        lemma_written(left, base, base);
        lemma_written(right, taken, left.written(base));
        let whole = Expr::Binary(Box::new(left), operator, Box::new(right));
        assert(whole.size() == left.size() + 1 + right.size());
        assert(operand == parsed(src, base, whole, index));
        lemma_extends(src, base, operand, whole, index, level)
    }
}

/// A source that compiles without a diagnostic is one well-formed
/// arithmetic expression and nothing else.
pub proof fn lemma_recognizes(src: Seq<char>) -> (expression: Expr)
    requires
        compiled(src).diagnostics.len() == 0,
    ensures
        expression.well_formed(),
        spells(src, expression),
{
    let empty = start(Seq::empty(), Seq::empty(), Seq::empty());
    let begun = advance(src, empty);
    let body = parse_precedence(src, begun, Precedence::Assignment);
    let ended = consume(src, body, TokenType::Eof, "Expect end of expression."@);
    lemma_advance_grows(src, empty);
    lemma_parse_precedence_grows(src, begun, Precedence::Assignment);
    lemma_advance_grows(src, body);
    if body.current is Some {
        lemma_report_grows(body, at_token(body.current->0, "Expect end of expression."@));
    }
    assert(compiled(src).diagnostics == ended.diagnostics);
    lemma_squeeze(body.diagnostics, empty.diagnostics);
    lemma_squeeze(begun.diagnostics, empty.diagnostics);
    lemma_quiet_advance(src, empty, 0);
    assert(accept(empty) == empty);
    lemma_take(src, empty, 0);
    let expression = lemma_reads(src, begun, 0, Precedence::Assignment);
    let last = token(src, expression.size());
    if last.kind != TokenType::Eof {
        lemma_report_grows(body, at_token(last, "Expect end of expression."@));
        assert(false);
    }
    expression
}

/// Interpreting a source never fails at run time. Either the source is one
/// well-formed arithmetic expression, and the result is the value of that
/// expression; or it is none, and it does not compile. Either way the stack
/// is left as it was.
pub proof fn lemma_interprets(src: Seq<char>, stack: Seq<Value>)
    requires
        src.len() <= usize::MAX,
    ensures
        interpreted(src, stack).1 == stack,
        match interpreted(src, stack).0 {
            Ok(result) => exists|expression: Expr|
                expression.well_formed() && spells(src, expression) && result == Some(
                    Value::Number(expression.value()),
                ),
            Err(error) => error == InterpretError::Compile && forall|expression: Expr|
                !(expression.well_formed() && #[trigger] spells(src, expression)),
        },
{
    if compiled(src).diagnostics.len() == 0 {
        let expression = lemma_recognizes(src);
        lemma_evaluates(src, expression, stack);
    } else {
        assert forall|expression: Expr|
            !(expression.well_formed() && #[trigger] spells(src, expression)) by {
            if expression.well_formed() && spells(src, expression) {
                lemma_compiles(src, expression);
            }
        }
    }
}

} // verus!
