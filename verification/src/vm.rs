//! The stack machine that executes a chunk.
use crate::chunk::{Chunk, OpCode};
use crate::compiler::{compile, finish, start, Parse};
use crate::number::{
    difference_of, greater, ieee_difference, ieee_product, ieee_quotient, ieee_sum, less,
    less_than, negate, negated, product_of, quotient_of, sum_of,
};
use crate::scanner::fits;
use crate::value::Value;
use std::collections::VecDeque;
use vstd::prelude::*;
use vstd::std_specs::convert::FromSpecImpl;

verus! {

/// Why a source could not be interpreted: it did not compile, or it
/// compiled and failed when it ran.
#[non_exhaustive]
#[derive(Clone, Copy, Debug, PartialEq, Eq)]
pub enum InterpretError {
    Compile,
    Runtime,
}

/// Why a source file could not be run: it could not be read, or its source
/// could not be interpreted.
#[non_exhaustive]
#[derive(Clone, Copy, Debug, PartialEq, Eq)]
pub enum RunFileError {
    Io,
    Interpret(InterpretError),
}

impl From<InterpretError> for RunFileError {
    fn from(error: InterpretError) -> (r: RunFileError) {
        RunFileError::Interpret(error)
    }
}

impl FromSpecImpl<InterpretError> for RunFileError {
    open spec fn obeys_from_spec() -> bool {
        true
    }

    open spec fn from_spec(error: InterpretError) -> RunFileError {
        RunFileError::Interpret(error)
    }
}

/// Why execution stopped at an instruction.
#[derive(Clone, Copy, Debug, PartialEq, Eq, Structural)]
pub enum Fault {
    /// A value was needed from an empty stack.
    StackUnderflow,
    /// An operand that had to be a number was not one.
    TypeMismatch,
    /// A `Constant` named no entry of the constant pool.
    MissingConstant,
}

/// A fault, as it is reported: with the line of the first instruction of
/// the chunk, which need not be the line of the instruction that failed.
#[derive(Clone, Copy, Debug, PartialEq, Eq, Structural)]
pub struct RuntimeError {
    pub fault: Fault,
    pub line: i32,
}

/// The line that a fault in `chunk` is reported with: that of its first
/// instruction, 0 where it has none.
pub open spec fn reported_line(chunk: Chunk) -> i32 {
    if chunk.lines@.len() > 0 {
        chunk.lines@[0]
    } else {
        0
    }
}

/// What one instruction does to the stack.
pub enum Step {
    /// Execution goes on with this stack.
    Next(Seq<Value>),
    /// The program ends with this result, leaving this stack.
    Finish(Value, Seq<Value>),
    /// Execution stops with a fault, leaving this stack.
    Halt(Fault, Seq<Value>),
}

/// The value that a binary instruction on two numbers leaves.
pub open spec fn binary_result(code: OpCode, a: u64, b: u64) -> Value {
    match code {
        OpCode::Add => Value::Number(ieee_sum(a, b)),
        OpCode::Subtract => Value::Number(ieee_difference(a, b)),
        OpCode::Multiply => Value::Number(ieee_product(a, b)),
        OpCode::Divide => Value::Number(ieee_quotient(a, b)),
        OpCode::Greater => Value::Bool(less_than(b, a)),
        _ => Value::Bool(less_than(a, b)),
    }
}

/// A binary instruction on numbers: the right operand is popped and tested
/// first, then the left one.
pub open spec fn binary_step(code: OpCode, stack: Seq<Value>) -> Step {
    if stack.len() == 0 {
        Step::Halt(Fault::StackUnderflow, stack)
    } else {
        match stack.last() {
            Value::Number(b) => {
                let rest = stack.drop_last();
                if rest.len() == 0 {
                    Step::Halt(Fault::StackUnderflow, rest)
                } else {
                    match rest.last() {
                        Value::Number(a) => Step::Next(
                            rest.drop_last().push(binary_result(code, a, b)),
                        ),
                        _ => Step::Halt(Fault::TypeMismatch, rest.drop_last()),
                    }
                }
            },
            _ => Step::Halt(Fault::TypeMismatch, stack.drop_last()),
        }
    }
}

/// The effect of `code` on `stack`, with `constants` as the pool.
pub open spec fn step(code: OpCode, constants: Seq<Value>, stack: Seq<Value>) -> Step {
    match code {
        OpCode::Constant(k) => if k < constants.len() {
            Step::Next(stack.push(constants[k as int]))
        } else {
            Step::Halt(Fault::MissingConstant, stack)
        },
        OpCode::Nil => Step::Next(stack.push(Value::Nil)),
        OpCode::True => Step::Next(stack.push(Value::Bool(true))),
        OpCode::False => Step::Next(stack.push(Value::Bool(false))),
        OpCode::Equal => if stack.len() == 0 {
            Step::Halt(Fault::StackUnderflow, stack)
        } else if stack.len() == 1 {
            Step::Halt(Fault::StackUnderflow, stack.drop_last())
        } else {
            Step::Next(
                stack.drop_last().drop_last().push(
                    Value::Bool(stack[stack.len() - 2].same(stack.last())),
                ),
            )
        },
        OpCode::Not => if stack.len() == 0 {
            Step::Halt(Fault::StackUnderflow, stack)
        } else {
            Step::Next(stack.drop_last().push(Value::Bool(stack.last().falsey())))
        },
        OpCode::Negate => if stack.len() == 0 {
            Step::Halt(Fault::StackUnderflow, stack)
        } else {
            match stack.last() {
                Value::Number(bits) => Step::Next(
                    stack.drop_last().push(Value::Number(negated(bits))),
                ),
                _ => Step::Halt(Fault::TypeMismatch, stack.drop_last()),
            }
        },
        OpCode::Return => if stack.len() == 0 {
            Step::Halt(Fault::StackUnderflow, stack)
        } else {
            Step::Finish(stack.last(), stack.drop_last())
        },
        _ => binary_step(code, stack),
    }
}

/// Execution of `codes` from instruction `pc` on: the result of the first
/// `Return` reached, `None` where the instructions end without one, or the
/// first fault; with the stack that is left.
pub open spec fn run_from(
    codes: Seq<OpCode>,
    constants: Seq<Value>,
    pc: int,
    stack: Seq<Value>,
) -> (Result<Option<Value>, Fault>, Seq<Value>)
    decreases codes.len() - pc,
{
    if pc < 0 || pc >= codes.len() {
        (Ok(None), stack)
    } else {
        match step(codes[pc], constants, stack) {
            Step::Next(rest) => run_from(codes, constants, pc + 1, rest),
            Step::Finish(value, rest) => (Ok(Some(value)), rest),
            Step::Halt(fault, rest) => (Err(fault), rest),
        }
    }
}

/// Execution of a whole chunk on `stack`.
pub open spec fn run_chunk(
    chunk: Chunk,
    stack: Seq<Value>,
) -> (Result<Option<Value>, Fault>, Seq<Value>) {
    run_from(chunk.codes@, chunk.constants@, 0, stack)
}

/// The compilation of `src` into an empty chunk.
pub open spec fn compiled(src: Seq<char>) -> Parse {
    finish(src, start(Seq::empty(), Seq::empty(), Seq::empty()))
}

/// What interpreting `src` on `stack` gives, and the stack it leaves: a
/// source with a diagnostic is not executed.
pub open spec fn interpreted(src: Seq<char>, stack: Seq<Value>) -> (
    Result<Option<Value>, InterpretError>,
    Seq<Value>,
) {
    let unit = compiled(src);
    if unit.diagnostics.len() > 0 {
        (Err(InterpretError::Compile), stack)
    } else {
        let (outcome, rest) = run_from(unit.codes, unit.constants, 0, stack);
        match outcome {
            Ok(value) => (Ok(value), rest),
            Err(_) => (Err(InterpretError::Runtime), rest),
        }
    }
}

/// A stack machine. It keeps its operand stack from one run to the next;
/// the code of a well-formed expression leaves the stack as it found it.
pub struct Vm {
    stack: VecDeque<Value>,
    chunk: Option<Chunk>,
}

impl Default for Vm {
    fn default() -> (vm: Vm)
        ensures
            vm.stack() == Seq::<Value>::empty(),
            vm.loaded() is None,
    {
        Vm { stack: VecDeque::new(), chunk: None }
    }
}

impl Vm {
    /// The operand stack, bottom first.
    pub closed spec fn stack(&self) -> Seq<Value> {
        self.stack@
    }

    /// The chunk that the next `run` will execute, if one is loaded.
    pub closed spec fn loaded(&self) -> Option<Chunk> {
        self.chunk
    }

    /// A machine with an empty stack and no chunk.
    pub fn new() -> (vm: Vm)
        ensures
            vm.stack() == Seq::<Value>::empty(),
            vm.loaded() is None,
    {
        Vm { stack: VecDeque::with_capacity(256), chunk: None }
    }

    /// Hands `chunk` to the machine for the next `run`.
    pub fn load(&mut self, chunk: Chunk)
        ensures
            final(self).loaded() == Some(chunk),
            final(self).stack() == old(self).stack(),
    {
        self.chunk = Some(chunk);
    }

    /// Pops the operand of a unary instruction.
    fn pop(&mut self) -> (r: Result<Value, Fault>)
        ensures
            final(self).chunk == old(self).chunk,
            match r {
                Ok(value) => old(self).stack@.len() > 0 && value == old(self).stack@.last()
                    && final(self).stack@ == old(self).stack@.drop_last(),
                Err(fault) => old(self).stack@.len() == 0 && fault == Fault::StackUnderflow
                    && final(self).stack@ == old(self).stack@,
            },
    {
        match self.stack.pop_back() {
            Some(value) => Ok(value),
            None => Err(Fault::StackUnderflow),
        }
    }

    /// Pops an operand that has to be a number.
    fn pop_number(&mut self) -> (r: Result<u64, Fault>)
        ensures
            final(self).chunk == old(self).chunk,
            match r {
                Ok(bits) => old(self).stack@.len() > 0 && old(self).stack@.last()
                    == Value::Number(bits) && final(self).stack@ == old(self).stack@.drop_last(),
                Err(Fault::StackUnderflow) => old(self).stack@.len() == 0 && final(self).stack@
                    == old(self).stack@,
                Err(fault) => old(self).stack@.len() > 0 && !(old(self).stack@.last() is Number)
                    && fault == Fault::TypeMismatch && final(self).stack@ == old(
                    self,
                ).stack@.drop_last(),
            },
    {
        match self.pop() {
            Ok(value) => match value.as_number() {
                Some(bits) => Ok(bits),
                None => Err(Fault::TypeMismatch),
            },
            Err(fault) => Err(fault),
        }
    }

    /// Executes a binary instruction on two numbers: pops the right operand,
    /// then the left one, and pushes what `code` makes of them.
    fn binary_op(&mut self, code: OpCode) -> (r: Result<(), Fault>)
        requires
            code is Add || code is Subtract || code is Multiply || code is Divide
                || code is Greater || code is Less,
        ensures
            final(self).chunk == old(self).chunk,
            match r {
                Ok(()) => binary_step(code, old(self).stack@) == Step::Next(final(self).stack@),
                Err(fault) => binary_step(code, old(self).stack@) == Step::Halt(
                    fault,
                    final(self).stack@,
                ),
            },
    {
        let b = match self.pop_number() {
            Ok(bits) => bits,
            Err(fault) => {
                return Err(fault);
            },
        };
        let a = match self.pop_number() {
            Ok(bits) => bits,
            Err(fault) => {
                return Err(fault);
            },
        };
        let value = match code {
            OpCode::Add => Value::Number(sum_of(a, b)),
            OpCode::Subtract => Value::Number(difference_of(a, b)),
            OpCode::Multiply => Value::Number(product_of(a, b)),
            OpCode::Divide => Value::Number(quotient_of(a, b)),
            OpCode::Greater => Value::Bool(greater(a, b)),
            _ => Value::Bool(less(a, b)),
        };
        self.stack.push_back(value);
        Ok(())
    }
    /// Executes one instruction.
    fn execute(&mut self, code: OpCode, constants: &Vec<Value>) -> (r: Result<Option<Value>, Fault>)
        ensures
            final(self).chunk == old(self).chunk,
            match r {
                Ok(None) => step(code, constants@, old(self).stack@) == Step::Next(
                    final(self).stack@,
                ),
                Ok(Some(value)) => step(code, constants@, old(self).stack@) == Step::Finish(
                    value,
                    final(self).stack@,
                ),
                Err(fault) => step(code, constants@, old(self).stack@) == Step::Halt(
                    fault,
                    final(self).stack@,
                ),
            },
    {
        match code {
            OpCode::Constant(k) => {
                if k < constants.len() {
                    self.stack.push_back(constants[k]);
                    Ok(None)
                } else {
                    Err(Fault::MissingConstant)
                }
            },
            OpCode::Nil => {
                self.stack.push_back(Value::Nil);
                Ok(None)
            },
            OpCode::True => {
                self.stack.push_back(Value::Bool(true));
                Ok(None)
            },
            OpCode::False => {
                self.stack.push_back(Value::Bool(false));
                Ok(None)
            },
            OpCode::Equal => {
                let b = match self.pop() {
                    Ok(value) => value,
                    Err(fault) => {
                        return Err(fault);
                    },
                };
                let a = match self.pop() {
                    Ok(value) => value,
                    Err(fault) => {
                        return Err(fault);
                    },
                };
                self.stack.push_back(Value::Bool(a == b));
                Ok(None)
            },
            OpCode::Not => {
                let value = match self.pop() {
                    Ok(value) => value,
                    Err(fault) => {
                        return Err(fault);
                    },
                };
                self.stack.push_back(Value::Bool(value.is_falsey()));
                Ok(None)
            },
            OpCode::Negate => {
                let bits = match self.pop_number() {
                    Ok(bits) => bits,
                    Err(fault) => {
                        return Err(fault);
                    },
                };
                self.stack.push_back(Value::Number(negate(bits)));
                Ok(None)
            },
            OpCode::Return => {
                match self.pop() {
                    Ok(value) => Ok(Some(value)),
                    Err(fault) => Err(fault),
                }
            },
            _ => {
                match self.binary_op(code) {
                    Ok(()) => Ok(None),
                    Err(fault) => Err(fault),
                }
            },
        }
    }

    /// The report of `fault` in `chunk`.
    fn runtime_error(chunk: &Chunk, fault: Fault) -> (error: RuntimeError)
        ensures
            error == (RuntimeError { fault, line: reported_line(*chunk) }),
    {
        let line = if chunk.lines.len() > 0 {
            chunk.lines[0]
        } else {
            0
        };
        RuntimeError { fault, line }
    }

    /// Executes the loaded chunk, which is unloaded by this, instruction by
    /// instruction up to the first `Return` or fault. The result is the value
    /// that `Return` popped; it is `None` where no chunk was loaded or the
    /// instructions ended without a `Return`.
    pub fn run(&mut self) -> (r: Result<Option<Value>, RuntimeError>)
        ensures
            final(self).loaded() is None,
            match old(self).loaded() {
                Some(chunk) => {
                    &&& final(self).stack() == run_chunk(chunk, old(self).stack()).1
                    &&& r == match run_chunk(chunk, old(self).stack()).0 {
                        Ok(value) => Ok::<Option<Value>, RuntimeError>(value),
                        Err(fault) => Err(RuntimeError { fault, line: reported_line(chunk) }),
                    }
                },
                None => r == Ok::<Option<Value>, RuntimeError>(None) && final(self).stack() == old(
                    self,
                ).stack(),
            },
    {
        let chunk = match self.chunk.take() {
            Some(chunk) => chunk,
            None => {
                return Ok(None);
            },
        };
        let ghost start = self.stack@;
        let mut pc: usize = 0;
        while pc < chunk.codes.len()
            invariant
                pc <= chunk.codes@.len(),
                self.chunk is None,
                old(self).chunk == Some(chunk),
                start == old(self).stack@,
                run_from(chunk.codes@, chunk.constants@, pc as int, self.stack@) == run_chunk(
                    chunk,
                    start,
                ),
            decreases chunk.codes@.len() - pc,
        {
            match self.execute(chunk.codes[pc], &chunk.constants) {
                Ok(None) => {},
                Ok(Some(value)) => {
                    return Ok(Some(value));
                },
                Err(fault) => {
                    return Err(Self::runtime_error(&chunk, fault));
                },
            }
            pc += 1;
        }
        Ok(None)
    }

    /// Compiles `source` and executes it. The result is the value of its
    /// expression. A source with a diagnostic is not executed, and leaves the
    /// machine as it was.
    pub fn interpret(&mut self, source: &str) -> (r: Result<Option<Value>, InterpretError>)
        requires
            fits(source@),
        ensures
            (r, final(self).stack()) == interpreted(source@, old(self).stack()),
            final(self).loaded() == if r == Err::<Option<Value>, InterpretError>(
                InterpretError::Compile,
            ) {
                old(self).loaded()
            } else {
                None
            },
    {
        let mut chunk = Chunk::new();
        let failed = match compile(source, &mut chunk) {
            Ok(()) => false,
            Err(_) => true,
        };
        if failed {
            return Err(InterpretError::Compile);
        }
        self.chunk = Some(chunk);
        match self.run() {
            Ok(value) => Ok(value),
            Err(_) => Err(InterpretError::Runtime),
        }
    }

    /// One turn of an interactive session: an empty `line` is the end of the
    /// input and ends the session, which `None` says; any other line is
    /// interpreted, and whatever comes of it the session goes on.
    pub fn repl(&mut self, line: &str) -> (r: Option<Result<Option<Value>, InterpretError>>)
        requires
            fits(line@),
        ensures
            line@.len() == 0 ==> r is None && final(self).stack() == old(self).stack()
                && final(self).loaded() == old(self).loaded(),
            line@.len() > 0 ==> r is Some && (r->0, final(self).stack()) == interpreted(
                line@,
                old(self).stack(),
            ),
    {
        if line.unicode_len() == 0 {
            None
        } else {
            Some(self.interpret(line))
        }
    }

    /// Runs the contents of a source file, `None` where it could not be
    /// read.
    pub fn run_file(&mut self, contents: Option<&str>) -> (r: Result<Option<Value>, RunFileError>)
        requires
            contents matches Some(source) ==> fits(source@),
        ensures
            match contents {
                Some(source) => {
                    &&& final(self).stack() == interpreted(source@, old(self).stack()).1
                    &&& r == match interpreted(source@, old(self).stack()).0 {
                        Ok(value) => Ok::<Option<Value>, RunFileError>(value),
                        Err(error) => Err(RunFileError::Interpret(error)),
                    }
                },
                None => {
                    &&& r == Err::<Option<Value>, RunFileError>(RunFileError::Io)
                    &&& final(self).stack() == old(self).stack()
                    &&& final(self).loaded() == old(self).loaded()
                },
            },
    {
        let source = match contents {
            Some(source) => source,
            None => {
                return Err(RunFileError::Io);
            },
        };
        match self.interpret(source) {
            Ok(value) => Ok(value),
            Err(error) => Err(RunFileError::from(error)),
        }
    }
}

} // verus!
