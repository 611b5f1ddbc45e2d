//! Bytecode: instructions, the source line of each, and a constant pool.
use crate::value::Value;
use vstd::prelude::*;

verus! {

/// One instruction of the stack machine.
#[derive(Clone, Copy, Debug, PartialEq, Eq, Structural)]
pub enum OpCode {
    Constant(usize),
    Nil,
    True,
    False,
    Equal,
    Greater,
    Less,
    Add,
    Subtract,
    Multiply,
    Divide,
    Not,
    Negate,
    Return,
}

/// A compiled unit. `codes` and `lines` grow together, one line per
/// instruction; `constants` is indexed by the operand of `Constant`.
pub struct Chunk {
    pub codes: Vec<OpCode>,
    pub constants: Vec<Value>,
    pub lines: Vec<i32>,
}

/// Whether every `Constant` among `codes` names one of `pool` constants.
pub open spec fn operands_in_range(codes: Seq<OpCode>, pool: nat) -> bool {
    forall|i: int|
        0 <= i < codes.len() ==> (#[trigger] codes[i] matches OpCode::Constant(k) ==> k < pool)
}

/// The decimal digit `d` as a character.
pub open spec fn digit(d: int) -> char {
    if d == 0 {
        '0'
    } else if d == 1 {
        '1'
    } else if d == 2 {
        '2'
    } else if d == 3 {
        '3'
    } else if d == 4 {
        '4'
    } else if d == 5 {
        '5'
    } else if d == 6 {
        '6'
    } else if d == 7 {
        '7'
    } else if d == 8 {
        '8'
    } else {
        '9'
    }
}

/// `n` in decimal, without leading zeros.
pub open spec fn decimal(n: nat) -> Seq<char>
    decreases n,
{
    if n < 10 {
        seq![digit(n as int)]
    } else {
        decimal(n / 10).push(digit((n % 10) as int))
    }
}

/// `text` behind as many `fill` as bring it to `width` characters.
pub open spec fn padded(text: Seq<char>, width: nat, fill: char) -> Seq<char> {
    if text.len() >= width {
        text
    } else {
        Seq::new((width - text.len()) as nat, |i: int| fill) + text
    }
}

/// A line number in at least four characters, zeros behind the sign.
pub open spec fn line_text(line: i32) -> Seq<char> {
    if line < 0 {
        seq!['-'] + padded(decimal((-line) as nat), 3, '0')
    } else {
        padded(decimal(line as nat), 4, '0')
    }
}

/// The name of an instruction in a listing.
pub open spec fn mnemonic(code: OpCode) -> Seq<char> {
    match code {
        OpCode::Constant(_) => "OP_CONSTANT"@,
        OpCode::Nil => "OP_NIL"@,
        OpCode::True => "OP_TRUE"@,
        OpCode::False => "OP_FALSE"@,
        OpCode::Equal => "OP_EQUAL"@,
        OpCode::Greater => "OP_GREATER"@,
        OpCode::Less => "OP_LESS"@,
        OpCode::Add => "OP_ADD"@,
        OpCode::Subtract => "OP_SUBTRACT"@,
        OpCode::Multiply => "OP_MULTIPLY"@,
        OpCode::Divide => "OP_DIVIDE"@,
        OpCode::Not => "OP_NOT"@,
        OpCode::Negate => "OP_NEGATE"@,
        OpCode::Return => "OP_RETURN"@,
    }
}

/// The views of `texts`.
pub open spec fn views(texts: Seq<String>) -> Seq<Seq<char>> {
    texts.map_values(|text: String| text@)
}

/// The row of instruction `i` in a listing: its offset, its line (a bar
/// where that is the line of the instruction before), its name, and for a
/// `Constant` the index and the printed form of the constant.
pub open spec fn row(
    codes: Seq<OpCode>,
    lines: Seq<i32>,
    printed: Seq<Seq<char>>,
    i: int,
) -> Seq<char> {
    let offset = padded(decimal(i as nat), 4, '0') + " "@;
    let line = if i > 0 && lines[i] == lines[i - 1] {
        "   | "@
    } else {
        line_text(lines[i]) + " "@
    };
    let instruction = match codes[i] {
        OpCode::Constant(k) => "OP_CONSTANT      "@ + padded(decimal(k as nat), 4, ' ') + " "@
            + printed[k as int],
        code => mnemonic(code),
    };
    offset + line + instruction + "\n"@
}

/// The heading of a listing and its first `n` rows.
pub open spec fn rows(
    codes: Seq<OpCode>,
    lines: Seq<i32>,
    printed: Seq<Seq<char>>,
    n: int,
) -> Seq<char>
    decreases n,
{
    if n <= 0 {
        "== CHUNK ==\n"@
    } else {
        rows(codes, lines, printed, n - 1) + row(codes, lines, printed, n - 1)
    }
}

impl Chunk {
    /// What holds of every chunk that was built by appending: there is one
    /// line per instruction, and every `Constant` names an existing constant.
    pub open spec fn well_formed(&self) -> bool {
        &&& self.lines@.len() == self.codes@.len()
        &&& operands_in_range(self.codes@, self.constants@.len())
    }

    /// An empty chunk.
    pub fn new() -> (chunk: Chunk)
        ensures
            chunk.codes@ == Seq::<OpCode>::empty(),
            chunk.constants@ == Seq::<Value>::empty(),
            chunk.lines@ == Seq::<i32>::empty(),
            chunk.well_formed(),
    {
        Chunk { codes: Vec::new(), constants: Vec::new(), lines: Vec::new() }
    }

    /// Appends `code` and the line it came from, as one step.
    pub fn write_opcode(&mut self, code: OpCode, line: i32)
        ensures
            final(self).codes@ == old(self).codes@.push(code),
            final(self).lines@ == old(self).lines@.push(line),
            final(self).constants@ == old(self).constants@,
            old(self).well_formed() && (code matches OpCode::Constant(k) ==> k < old(
                self,
            ).constants@.len()) ==> final(self).well_formed(),
    {
        self.codes.push(code);
        self.lines.push(line);
    }

    /// Appends `constant` to the pool and the instruction that loads it.
    pub fn write_constant(&mut self, constant: Value, line: i32)
        ensures
            final(self).constants@ == old(self).constants@.push(constant),
            final(self).codes@ == old(self).codes@.push(
                OpCode::Constant(old(self).constants@.len() as usize),
            ),
            final(self).lines@ == old(self).lines@.push(line),
            old(self).well_formed() ==> final(self).well_formed(),
    {
        self.constants.push(constant);
        let index: usize = self.constants.len() - 1;
        self.write_opcode(OpCode::Constant(index), line);
    }

    /// Whether this chunk is well formed.
    pub fn is_well_formed(&self) -> (r: bool)
        ensures
            r == self.well_formed(),
    {
        if self.lines.len() != self.codes.len() {
            return false;
        }
        let mut i: usize = 0;
        while i < self.codes.len()
            invariant
                i <= self.codes@.len(),
                operands_in_range(self.codes@.take(i as int), self.constants@.len()),
            decreases self.codes@.len() - i,
        {
            if let OpCode::Constant(k) = self.codes[i] {
                if k >= self.constants.len() {
                    assert(self.codes@[i as int] == OpCode::Constant(k));
                    return false;
                }
            }
            assert forall|j: int| 0 <= j < i + 1 implies (#[trigger] self.codes@.take(
                i + 1,
            )[j] matches OpCode::Constant(k) ==> k < self.constants@.len()) by {
                if j < i {
                    assert(self.codes@.take(i + 1)[j] == self.codes@.take(i as int)[j]);
                }
            }
            i += 1;
        }
        assert(self.codes@.take(i as int) == self.codes@);
        true
    }
    /// The listing of this chunk, where `printed` holds the printed form of
    /// each constant of the pool.
    pub open spec fn listing(&self, printed: Seq<Seq<char>>) -> Seq<char> {
        rows(self.codes@, self.lines@, printed, self.codes@.len() as int)
    }

    /// Renders this chunk as text, one row per instruction under a heading.
    /// `printed` holds the printed form of each constant of the pool.
    pub fn disassemble(&self, printed: &Vec<String>) -> (text: String)
        requires
            self.well_formed(),
            printed@.len() == self.constants@.len(),
        ensures
            text@ == self.listing(views(printed@)),
    {
        let mut text = String::from_str("== CHUNK ==\n");
        let mut i: usize = 0;
        while i < self.codes.len()
            invariant
                self.well_formed(),
                printed@.len() == self.constants@.len(),
                i <= self.codes@.len(),
                text@ == rows(self.codes@, self.lines@, views(printed@), i as int),
            decreases self.codes@.len() - i,
        {
            self.push_row(&mut text, printed, i);
            i += 1;
        }
        text
    }

    /// Appends the row of instruction `i`.
    fn push_row(&self, text: &mut String, printed: &Vec<String>, i: usize)
        requires
            self.well_formed(),
            printed@.len() == self.constants@.len(),
            i < self.codes@.len(),
        ensures
            final(text)@ == old(text)@ + row(self.codes@, self.lines@, views(printed@), i as int),
    {
        let ghost offset = padded(decimal(i as nat), 4, '0') + " "@;
        push_padded(text, i as u64, 4, true);
        text.append(" ");
        assert(text@ =~= old(text)@ + offset);
        let ghost line = if i > 0 && self.lines@[i as int] == self.lines@[i - 1] {
            "   | "@
        } else {
            line_text(self.lines@[i as int]) + " "@
        };
        if i > 0 && self.lines[i] == self.lines[i - 1] {
            text.append("   | ");
        } else {
            push_line(text, self.lines[i]);
            text.append(" ");
        }
        assert(text@ =~= old(text)@ + offset + line);
        let ghost instruction = match self.codes@[i as int] {
            OpCode::Constant(k) => "OP_CONSTANT      "@ + padded(decimal(k as nat), 4, ' ')
                + " "@ + views(printed@)[k as int],
            code => mnemonic(code),
        };
        match self.codes[i] {
            OpCode::Constant(k) => {
                let ghost start = text@;
                text.append("OP_CONSTANT      ");
                push_padded(text, k as u64, 4, false);
                text.append(" ");
                text.append(printed[k].as_str());
                assert(views(printed@)[k as int] == printed@[k as int]@);
                assert(text@ =~= start + instruction);
            },
            code => {
                text.append(mnemonic_text(code));
            },
        }
        assert(text@ =~= old(text)@ + offset + line + instruction);
        text.append("\n");
        assert(text@ =~= old(text)@ + (offset + line + instruction + "\n"@));
    }
}

/// The name of an instruction in a listing.
fn mnemonic_text(code: OpCode) -> (text: &'static str)
    ensures
        text@ == mnemonic(code),
{
    match code {
        OpCode::Constant(_) => "OP_CONSTANT",
        OpCode::Nil => "OP_NIL",
        OpCode::True => "OP_TRUE",
        OpCode::False => "OP_FALSE",
        OpCode::Equal => "OP_EQUAL",
        OpCode::Greater => "OP_GREATER",
        OpCode::Less => "OP_LESS",
        OpCode::Add => "OP_ADD",
        OpCode::Subtract => "OP_SUBTRACT",
        OpCode::Multiply => "OP_MULTIPLY",
        OpCode::Divide => "OP_DIVIDE",
        OpCode::Not => "OP_NOT",
        OpCode::Negate => "OP_NEGATE",
        OpCode::Return => "OP_RETURN",
    }
}

/// The text of one decimal digit.
fn digit_text(d: u64) -> (text: &'static str)
    requires
        d < 10,
    ensures
        text@ == seq![digit(d as int)],
{
    proof {
        reveal_strlit("0");
        reveal_strlit("1");
        reveal_strlit("2");
        reveal_strlit("3");
        reveal_strlit("4");
        reveal_strlit("5");
        reveal_strlit("6");
        reveal_strlit("7");
        reveal_strlit("8");
        reveal_strlit("9");
    }
    let text = if d == 0 {
        "0"
    } else if d == 1 {
        "1"
    } else if d == 2 {
        "2"
    } else if d == 3 {
        "3"
    } else if d == 4 {
        "4"
    } else if d == 5 {
        "5"
    } else if d == 6 {
        "6"
    } else if d == 7 {
        "7"
    } else if d == 8 {
        "8"
    } else {
        "9"
    };
    assert(text@ =~= seq![digit(d as int)]);
    text
}

/// Appends `n` in decimal.
fn push_decimal(text: &mut String, n: u64)
    ensures
        final(text)@ == old(text)@ + decimal(n as nat),
    decreases n,
{
    if n >= 10 {
        push_decimal(text, n / 10);
    }
    text.append(digit_text(n % 10));
    assert(final(text)@ =~= old(text)@ + decimal(n as nat));
}

/// Appends `n` in decimal, in at least `width` characters: behind zeros
/// where `zeros` says so, else behind spaces.
fn push_padded(text: &mut String, n: u64, width: usize, zeros: bool)
    ensures
        final(text)@ == old(text)@ + padded(
            decimal(n as nat),
            width as nat,
            if zeros {
                '0'
            } else {
                ' '
            },
        ),
{
    let mut number = String::new();
    push_decimal(&mut number, n);
    assert(number@ =~= decimal(n as nat));
    let length = number.as_str().unicode_len();
    let ghost fill = if zeros {
        '0'
    } else {
        ' '
    };
    let mut written: usize = length;
    while written < width
        invariant
            length <= written,
            length == number@.len(),
            length < width ==> written <= width,
            length >= width ==> written == length,
            text@ == old(text)@ + Seq::new((written - length) as nat, |i: int| fill),
            fill == if zeros {
                '0'
            } else {
                ' '
            },
        decreases width - written,
    {
        if zeros {
            proof {
                reveal_strlit("0");
            }
            text.append("0");
        } else {
            proof {
                reveal_strlit(" ");
            }
            text.append(" ");
        }
        assert(text@ =~= old(text)@ + Seq::new((written + 1 - length) as nat, |i: int| fill));
        written += 1;
    }
    text.append(number.as_str());
    assert(text@ =~= old(text)@ + padded(decimal(n as nat), width as nat, fill));
}

/// Appends a line number in at least four characters, zeros behind the
/// sign.
fn push_line(text: &mut String, line: i32)
    ensures
        final(text)@ == old(text)@ + line_text(line),
{
    if line < 0 {
        proof {
            reveal_strlit("-");
        }
        text.append("-");
        let magnitude: u64 = (0 - line as i64) as u64;
        push_padded(text, magnitude, 3, true);
        assert(final(text)@ =~= old(text)@ + line_text(line));
    } else {
        push_padded(text, line as u64, 4, true);
    }
}

/// Disassembling is repeatable: two listings of one chunk with the same
/// printed constants are the same text.
pub proof fn lemma_disassemble_twice(
    chunk: Chunk,
    printed: Seq<String>,
    first: String,
    second: String,
)
    requires
        first@ == chunk.listing(views(printed)),
        second@ == chunk.listing(views(printed)),
    ensures
        first@ == second@,
{
}

} // verus!
