//! The scanner: source text to tokens, one at a time.
use vstd::prelude::*;

verus! {

/// The lexical categories.
#[derive(Clone, Copy, Debug, PartialEq, Eq, Structural)]
pub enum TokenType {
    LeftParen,
    RightParen,
    LeftBrace,
    RightBrace,
    Comma,
    Dot,
    Minus,
    Plus,
    Semicolon,
    Slash,
    Star,
    Bang,
    BangEqual,
    Equal,
    EqualEqual,
    Greater,
    GreaterEqual,
    Less,
    LessEqual,
    Identifier,
    String,
    Number,
    And,
    Class,
    Else,
    False,
    For,
    Fun,
    If,
    Nil,
    Or,
    Print,
    Return,
    Super,
    This,
    True,
    Var,
    While,
    Error,
    Eof,
}

/// A token: its category, the text it was scanned from (for an `Error`
/// token, the diagnostic instead), and the line on which it ends.
#[derive(Clone, Copy, Debug)]
pub struct Token<'lexeme> {
    pub kind: TokenType,
    pub lexeme: &'lexeme str,
    pub line: i32,
}

/// A scanner over `source`. `start` and `current` count characters: the
/// token being scanned began at `start`, and `current` is the next character
/// to read.
pub struct Scanner<'src> {
    pub source: &'src str,
    pub start: usize,
    pub current: usize,
    pub line: i32,
}

/// Whether `c` is alphabetic in the sense of Unicode.
pub uninterp spec fn alphabetic(c: char) -> bool;

/// Whether `c` is numeric in the sense of Unicode: a digit, a letter that
/// stands for a number, or another numeric character.
pub uninterp spec fn numeric(c: char) -> bool;

/// Calls `char::is_alphabetic` of std. Trusted: the answer is a function of
/// the character alone, named `alphabetic`, and a line break is not
/// alphabetic.
#[verifier::external_body]
pub(crate) fn is_alphabetic(c: char) -> (r: bool)
    ensures
        r == alphabetic(c),
        c == '\n' ==> !r,
{
    c.is_alphabetic()
}

/// Calls `char::is_numeric` of std. Trusted: the answer is a function of the
/// character alone, named `numeric`, and a line break is not numeric.
#[verifier::external_body]
pub(crate) fn is_numeric(c: char) -> (r: bool)
    ensures
        r == numeric(c),
        c == '\n' ==> !r,
{
    c.is_numeric()
}

/// The character of `src` at `i`, if there is one.
pub open spec fn char_at(src: Seq<char>, i: int) -> Option<char> {
    if 0 <= i < src.len() {
        Some(src[i])
    } else {
        None
    }
}

/// The number of line breaks among the first `upto` characters of `src`.
pub open spec fn newlines(src: Seq<char>, upto: int) -> int
    decreases upto,
{
    if upto <= 0 {
        0
    } else {
        newlines(src, upto - 1) + if char_at(src, upto - 1) == Some('\n') {
            1int
        } else {
            0int
        }
    }
}

/// The 1-based line that a scanner is on when it has read `pos` characters.
pub open spec fn line_at(src: Seq<char>, pos: int) -> int {
    1 + newlines(src, pos)
}

/// Whether every line number of `src` fits the line counter.
pub open spec fn fits(src: Seq<char>) -> bool {
    line_at(src, src.len() as int) <= i32::MAX
}

/// The first position at or after `pos` that holds `stop`; the length of
/// `src` where there is none.
pub open spec fn until(src: Seq<char>, pos: int, stop: char) -> int
    decreases src.len() - pos,
{
    if pos < 0 || pos >= src.len() {
        src.len() as int
    } else if src[pos] == stop {
        pos
    } else {
        until(src, pos + 1, stop)
    }
}

/// The end of the longest run of numeric characters that starts at `pos`.
pub open spec fn digits_end(src: Seq<char>, pos: int) -> int
    decreases src.len() - pos,
{
    if 0 <= pos < src.len() && numeric(src[pos]) {
        digits_end(src, pos + 1)
    } else {
        pos
    }
}

/// The end of the longest run of alphabetic characters that starts at `pos`.
pub open spec fn letters_end(src: Seq<char>, pos: int) -> int
    decreases src.len() - pos,
{
    if 0 <= pos < src.len() && alphabetic(src[pos]) {
        letters_end(src, pos + 1)
    } else {
        pos
    }
}

/// Whether `c` separates tokens without being one.
pub open spec fn blank(c: char) -> bool {
    c == ' ' || c == '\r' || c == '\t' || c == '\n'
}

/// Where the next token starts when scanning resumes at `pos`: after any
/// blanks and any comments, each of which runs from `//` up to, not
/// including, the end of its line. `in_comment` says that `pos` is inside a
/// comment.
pub open spec fn skip(src: Seq<char>, pos: int, in_comment: bool) -> int
    decreases src.len() - pos, if in_comment { 1int } else { 0int },
{
    if pos < 0 || pos >= src.len() {
        pos
    } else if in_comment {
        if src[pos] == '\n' {
            skip(src, pos, false)
        } else {
            skip(src, pos + 1, true)
        }
    } else if blank(src[pos]) {
        skip(src, pos + 1, false)
    } else if src[pos] == '/' && char_at(src, pos + 1) == Some('/') {
        skip(src, pos + 2, true)
    } else {
        pos
    }
}

/// The category of a word: that of the keyword it spells, else `Identifier`.
pub open spec fn word_kind(word: Seq<char>) -> TokenType {
    if word == "and"@ {
        TokenType::And
    } else if word == "class"@ {
        TokenType::Class
    } else if word == "else"@ {
        TokenType::Else
    } else if word == "false"@ {
        TokenType::False
    } else if word == "for"@ {
        TokenType::For
    } else if word == "fun"@ {
        TokenType::Fun
    } else if word == "if"@ {
        TokenType::If
    } else if word == "nil"@ {
        TokenType::Nil
    } else if word == "or"@ {
        TokenType::Or
    } else if word == "print"@ {
        TokenType::Print
    } else if word == "return"@ {
        TokenType::Return
    } else if word == "super"@ {
        TokenType::Super
    } else if word == "this"@ {
        TokenType::This
    } else if word == "true"@ {
        TokenType::True
    } else if word == "var"@ {
        TokenType::Var
    } else if word == "while"@ {
        TokenType::While
    } else {
        TokenType::Identifier
    }
}

/// A token as a scanner finds it: its category, its text, and the range of
/// source characters that the scanner read for it.
pub struct Lexed {
    pub kind: TokenType,
    pub lexeme: Seq<char>,
    pub start: int,
    pub end: int,
}

/// A token of category `kind` that spans `start..end` of `src`.
pub open spec fn spanning(src: Seq<char>, kind: TokenType, start: int, end: int) -> Lexed {
    Lexed { kind, lexeme: src.subrange(start, end), start, end }
}

/// The `Error` token with diagnostic `message`, after reading `start..end`.
pub open spec fn failing(message: Seq<char>, start: int, end: int) -> Lexed {
    Lexed { kind: TokenType::Error, lexeme: message, start, end }
}

/// One of the operators that `=` may follow: `pair` where it does, else
/// `single`.
pub open spec fn operator(
    src: Seq<char>,
    start: int,
    single: TokenType,
    pair: TokenType,
) -> Lexed {
    if char_at(src, start + 1) == Some('=') {
        spanning(src, pair, start, start + 2)
    } else {
        spanning(src, single, start, start + 1)
    }
}

/// A string literal whose opening quote is at `start`: it runs to the next
/// quote, and is an error where there is none.
pub open spec fn string_token(src: Seq<char>, start: int) -> Lexed {
    let close = until(src, start + 1, '"');
    if close < src.len() {
        spanning(src, TokenType::String, start, close + 1)
    } else {
        failing("Unterminated string."@, start, src.len() as int)
    }
}

/// Where a number literal ends whose digits before any `.` end at `whole`:
/// a `.` belongs to it only with a numeric character behind it.
pub open spec fn fraction_end(src: Seq<char>, whole: int) -> int {
    if char_at(src, whole) == Some('.') && 0 <= whole + 1 < src.len() && numeric(src[whole + 1]) {
        digits_end(src, whole + 1)
    } else {
        whole
    }
}

/// A number literal whose first digit is at `start`.
pub open spec fn number_token(src: Seq<char>, start: int) -> Lexed {
    spanning(src, TokenType::Number, start, fraction_end(src, digits_end(src, start + 1)))
}

/// A keyword or an identifier whose first letter is at `start`.
pub open spec fn word_token(src: Seq<char>, start: int) -> Lexed {
    let end = letters_end(src, start + 1);
    spanning(src, word_kind(src.subrange(start, end)), start, end)
}

/// The token that starts at `start`, where no blank or comment starts.
pub open spec fn token_at(src: Seq<char>, start: int) -> Lexed {
    if start < 0 || start >= src.len() {
        spanning(src, TokenType::Eof, start, start)
    } else {
        let c = src[start];
        if c == '(' {
            spanning(src, TokenType::LeftParen, start, start + 1)
        } else if c == ')' {
            spanning(src, TokenType::RightParen, start, start + 1)
        } else if c == '{' {
            spanning(src, TokenType::LeftBrace, start, start + 1)
        } else if c == '}' {
            spanning(src, TokenType::RightBrace, start, start + 1)
        } else if c == ';' {
            spanning(src, TokenType::Semicolon, start, start + 1)
        } else if c == ',' {
            spanning(src, TokenType::Comma, start, start + 1)
        } else if c == '.' {
            spanning(src, TokenType::Dot, start, start + 1)
        } else if c == '-' {
            spanning(src, TokenType::Minus, start, start + 1)
        } else if c == '+' {
            spanning(src, TokenType::Plus, start, start + 1)
        } else if c == '/' {
            spanning(src, TokenType::Slash, start, start + 1)
        } else if c == '*' {
            spanning(src, TokenType::Star, start, start + 1)
        } else if c == '!' {
            operator(src, start, TokenType::Bang, TokenType::BangEqual)
        } else if c == '=' {
            operator(src, start, TokenType::Equal, TokenType::EqualEqual)
        } else if c == '<' {
            operator(src, start, TokenType::Less, TokenType::LessEqual)
        } else if c == '>' {
            operator(src, start, TokenType::Greater, TokenType::GreaterEqual)
        } else if c == '"' {
            string_token(src, start)
        } else if '0' <= c <= '9' {
            number_token(src, start)
        } else if alphabetic(c) {
            word_token(src, start)
        } else {
            failing("Unexpected character."@, start, start + 1)
        }
    }
}

/// The next token of `src` for a scanner that has read `pos` characters.
pub open spec fn scan(src: Seq<char>, pos: int) -> Lexed {
    token_at(src, skip(src, pos, false))
}

/// Line breaks only add up.
pub proof fn lemma_newlines_grow(src: Seq<char>, a: int, b: int)
    requires
        a <= b,
    ensures
        0 <= newlines(src, a) <= newlines(src, b),
    decreases b - a, b,
{
    if a < b {
        lemma_newlines_grow(src, a, b - 1);
    } else if a > 0 {
        lemma_newlines_grow(src, a - 1, b - 1);
    }
}

/// `kind` where `word` is `offset` characters followed by exactly `rest`,
/// else `Identifier`.
pub open spec fn rest_kind(word: Seq<char>, offset: int, rest: Seq<char>, kind: TokenType) -> TokenType {
    if word.len() == offset + rest.len() && word.subrange(offset, word.len() as int) == rest {
        kind
    } else {
        TokenType::Identifier
    }
}

/// The category of a word as the scanner finds it: by the first letter, for
/// `f` and `t` by the second too, then by the rest of the word.
spec fn trie(word: Seq<char>) -> TokenType {
    let c = word[0];
    if c == 'a' {
        rest_kind(word, 1, "nd"@, TokenType::And)
    } else if c == 'c' {
        rest_kind(word, 1, "lass"@, TokenType::Class)
    } else if c == 'e' {
        rest_kind(word, 1, "lse"@, TokenType::Else)
    } else if c == 'i' {
        rest_kind(word, 1, "f"@, TokenType::If)
    } else if c == 'n' {
        rest_kind(word, 1, "il"@, TokenType::Nil)
    } else if c == 'o' {
        rest_kind(word, 1, "r"@, TokenType::Or)
    } else if c == 'p' {
        rest_kind(word, 1, "rint"@, TokenType::Print)
    } else if c == 'r' {
        rest_kind(word, 1, "eturn"@, TokenType::Return)
    } else if c == 's' {
        rest_kind(word, 1, "uper"@, TokenType::Super)
    } else if c == 'v' {
        rest_kind(word, 1, "ar"@, TokenType::Var)
    } else if c == 'w' {
        rest_kind(word, 1, "hile"@, TokenType::While)
    } else if c == 'f' {
        if word.len() > 1 {
            let d = word[1];
            if d == 'a' {
                rest_kind(word, 2, "lse"@, TokenType::False)
            } else if d == 'o' {
                rest_kind(word, 2, "r"@, TokenType::For)
            } else if d == 'u' {
                rest_kind(word, 2, "n"@, TokenType::Fun)
            } else {
                TokenType::Identifier
            }
        } else {
            TokenType::Identifier
        }
    } else if c == 't' {
        if word.len() > 1 {
            let d = word[1];
            if d == 'h' {
                rest_kind(word, 2, "is"@, TokenType::This)
            } else if d == 'r' {
                rest_kind(word, 2, "ue"@, TokenType::True)
            } else {
                TokenType::Identifier
            }
        } else {
            TokenType::Identifier
        }
    } else {
        TokenType::Identifier
    }
}

/// A word that begins as `keyword` does is `keyword` exactly when it goes on
/// as `keyword` does.
proof fn lemma_rest(word: Seq<char>, keyword: Seq<char>, rest: Seq<char>, offset: int)
    requires
        0 <= offset <= word.len(),
        keyword.len() == offset + rest.len(),
        keyword.subrange(offset, keyword.len() as int) == rest,
        forall|i: int| 0 <= i < offset ==> word[i] == keyword[i],
    ensures
        word == keyword <==> (word.len() == offset + rest.len() && word.subrange(
            offset,
            word.len() as int,
        ) == rest),
{
    if word.len() == offset + rest.len() && word.subrange(offset, word.len() as int) == rest {
        assert forall|i: int| 0 <= i < word.len() implies word[i] == keyword[i] by {
            if i >= offset {
                assert(word[i] == word.subrange(offset, word.len() as int)[i - offset]);
                assert(keyword[i] == keyword.subrange(offset, keyword.len() as int)[i - offset]);
            }
        }
        assert(word =~= keyword);
    }
}

/// The scanner's way through the keywords finds what `word_kind` says.
proof fn lemma_trie(word: Seq<char>)
    requires
        word.len() > 0,
    ensures
        trie(word) == word_kind(word),
{
    reveal_strlit("and");
    reveal_strlit("class");
    reveal_strlit("else");
    reveal_strlit("false");
    reveal_strlit("for");
    reveal_strlit("fun");
    reveal_strlit("if");
    reveal_strlit("nil");
    reveal_strlit("or");
    reveal_strlit("print");
    reveal_strlit("return");
    reveal_strlit("super");
    reveal_strlit("this");
    reveal_strlit("true");
    reveal_strlit("var");
    reveal_strlit("while");
    reveal_strlit("nd");
    reveal_strlit("lass");
    reveal_strlit("lse");
    reveal_strlit("f");
    reveal_strlit("il");
    reveal_strlit("r");
    reveal_strlit("rint");
    reveal_strlit("eturn");
    reveal_strlit("uper");
    reveal_strlit("ar");
    reveal_strlit("hile");
    reveal_strlit("n");
    reveal_strlit("is");
    reveal_strlit("ue");
    let c = word[0];
    if c == 'a' {
        assert("and"@.subrange(1, 3) =~= "nd"@);
        lemma_rest(word, "and"@, "nd"@, 1);
    } else if c == 'c' {
        assert("class"@.subrange(1, 5) =~= "lass"@);
        lemma_rest(word, "class"@, "lass"@, 1);
    } else if c == 'e' {
        assert("else"@.subrange(1, 4) =~= "lse"@);
        lemma_rest(word, "else"@, "lse"@, 1);
    } else if c == 'i' {
        assert("if"@.subrange(1, 2) =~= "f"@);
        lemma_rest(word, "if"@, "f"@, 1);
    } else if c == 'n' {
        assert("nil"@.subrange(1, 3) =~= "il"@);
        lemma_rest(word, "nil"@, "il"@, 1);
    } else if c == 'o' {
        assert("or"@.subrange(1, 2) =~= "r"@);
        lemma_rest(word, "or"@, "r"@, 1);
    } else if c == 'p' {
        assert("print"@.subrange(1, 5) =~= "rint"@);
        lemma_rest(word, "print"@, "rint"@, 1);
    } else if c == 'r' {
        assert("return"@.subrange(1, 6) =~= "eturn"@);
        lemma_rest(word, "return"@, "eturn"@, 1);
    } else if c == 's' {
        assert("super"@.subrange(1, 5) =~= "uper"@);
        lemma_rest(word, "super"@, "uper"@, 1);
    } else if c == 'v' {
        assert("var"@.subrange(1, 3) =~= "ar"@);
        lemma_rest(word, "var"@, "ar"@, 1);
    } else if c == 'w' {
        assert("while"@.subrange(1, 5) =~= "hile"@);
        lemma_rest(word, "while"@, "hile"@, 1);
    } else if c == 'f' {
        if word.len() > 1 {
            let d = word[1];
            if d == 'a' {
                assert("false"@.subrange(2, 5) =~= "lse"@);
                lemma_rest(word, "false"@, "lse"@, 2);
            } else if d == 'o' {
                assert("for"@.subrange(2, 3) =~= "r"@);
                lemma_rest(word, "for"@, "r"@, 2);
            } else if d == 'u' {
                assert("fun"@.subrange(2, 3) =~= "n"@);
                lemma_rest(word, "fun"@, "n"@, 2);
            }
        }
    } else if c == 't' {
        if word.len() > 1 {
            let d = word[1];
            if d == 'h' {
                assert("this"@.subrange(2, 4) =~= "is"@);
                lemma_rest(word, "this"@, "is"@, 2);
            } else if d == 'r' {
                assert("true"@.subrange(2, 4) =~= "ue"@);
                lemma_rest(word, "true"@, "ue"@, 2);
            }
        }
    }
}

/// Skipping ends inside the source or at its end, on a character that is
/// neither blank nor the start of a comment.
pub proof fn lemma_skip(src: Seq<char>, pos: int, in_comment: bool)
    requires
        0 <= pos <= src.len(),
    ensures
        pos <= skip(src, pos, in_comment) <= src.len(),
        skip(src, pos, in_comment) < src.len() ==> {
            let at = skip(src, pos, in_comment);
            &&& !blank(src[at])
            &&& !(src[at] == '/' && char_at(src, at + 1) == Some('/'))
        },
    decreases src.len() - pos, if in_comment { 1int } else { 0int },
{
    if pos < src.len() {
        if in_comment {
            if src[pos] == '\n' {
                lemma_skip(src, pos, false);
            } else {
                lemma_skip(src, pos + 1, true);
            }
        } else if blank(src[pos]) {
            lemma_skip(src, pos + 1, false);
        } else if src[pos] == '/' && char_at(src, pos + 1) == Some('/') {
            lemma_skip(src, pos + 2, true);
        }
    }
}

/// A search stays inside the source.
pub proof fn lemma_until(src: Seq<char>, pos: int, stop: char)
    requires
        0 <= pos <= src.len(),
    ensures
        pos <= until(src, pos, stop) <= src.len(),
    decreases src.len() - pos,
{
    if pos < src.len() && src[pos] != stop {
        lemma_until(src, pos + 1, stop);
    }
}

/// A run of numeric characters stays inside the source.
pub proof fn lemma_digits_end(src: Seq<char>, pos: int)
    requires
        0 <= pos <= src.len(),
    ensures
        pos <= digits_end(src, pos) <= src.len(),
    decreases src.len() - pos,
{
    if pos < src.len() && numeric(src[pos]) {
        lemma_digits_end(src, pos + 1);
    }
}

/// A run of alphabetic characters stays inside the source.
pub proof fn lemma_letters_end(src: Seq<char>, pos: int)
    requires
        0 <= pos <= src.len(),
    ensures
        pos <= letters_end(src, pos) <= src.len(),
    decreases src.len() - pos,
{
    if pos < src.len() && alphabetic(src[pos]) {
        lemma_letters_end(src, pos + 1);
    }
}

/// Every token lies inside the source, behind what was read before it. Only
/// `Eof` is empty, and it is found at the end of the source and nowhere
/// else.
pub proof fn lemma_scan(src: Seq<char>, pos: int)
    requires
        0 <= pos <= src.len(),
    ensures
        pos <= scan(src, pos).start <= scan(src, pos).end <= src.len(),
        scan(src, pos).kind == TokenType::Eof <==> scan(src, pos).start == src.len(),
        scan(src, pos).kind != TokenType::Eof ==> scan(src, pos).start < scan(src, pos).end,
{
    lemma_skip(src, pos, false);
    let start = skip(src, pos, false);
    if start < src.len() {
        lemma_until(src, start + 1, '"');
        lemma_digits_end(src, start + 1);
        let whole = digits_end(src, start + 1);
        if whole + 1 <= src.len() {
            lemma_digits_end(src, whole + 1);
        }
        lemma_letters_end(src, start + 1);
    }
}

/// The end of the input is final: behind an `Eof` token the scanner finds
/// `Eof` again, at the same place.
pub proof fn lemma_end(src: Seq<char>, pos: int)
    requires
        0 <= pos <= src.len(),
        scan(src, pos).kind == TokenType::Eof,
    ensures
        scan(src, pos).lexeme.len() == 0,
        scan(src, pos).end == src.len(),
        scan(src, scan(src, pos).end) == scan(src, pos),
{
    lemma_scan(src, pos);
    lemma_scan(src, src.len() as int);
}

impl<'src> Scanner<'src> {
    /// The token in hand lies inside the source.
    pub open spec fn positioned(&self) -> bool {
        self.start <= self.current <= self.source@.len()
    }

    /// The line counter has counted every line break that was read.
    pub open spec fn synced(&self) -> bool {
        self.line == line_at(self.source@, self.current as int)
    }

    /// What holds of a scanner between two tokens.
    pub open spec fn wf(&self) -> bool {
        &&& self.positioned()
        &&& self.synced()
        &&& fits(self.source@)
    }

    /// A scanner at the beginning of `source`, on line 1.
    pub fn new(source: &'src str) -> (scanner: Self)
        ensures
            scanner.source == source,
            scanner.start == 0,
            scanner.current == 0,
            scanner.line == 1,
            fits(source@) ==> scanner.wf(),
    {
        Scanner { source, start: 0, current: 0, line: 1 }
    }

    /// Reads the next character, if there is one.
    pub fn advance(&mut self) -> (r: Option<char>)
        ensures
            r == char_at(old(self).source@, old(self).current as int),
            final(self).current == if r is Some {
                old(self).current + 1
            } else {
                old(self).current as int
            },
            final(self).source == old(self).source,
            final(self).start == old(self).start,
            final(self).line == old(self).line,
    {
        if self.current < self.source.unicode_len() {
            let c = self.source.get_char(self.current);
            self.current = self.current + 1;
            Some(c)
        } else {
            None
        }
    }

    /// The next character, without reading it.
    pub fn peek(&self) -> (r: Option<char>)
        ensures
            r == char_at(self.source@, self.current as int),
    {
        if self.current < self.source.unicode_len() {
            Some(self.source.get_char(self.current))
        } else {
            None
        }
    }

    /// The character after the next one, without reading either.
    pub fn peek_next(&self) -> (r: Option<char>)
        ensures
            r == char_at(self.source@, self.current + 1),
    {
        let len = self.source.unicode_len();
        if self.current < len && self.current + 1 < len {
            Some(self.source.get_char(self.current + 1))
        } else {
            None
        }
    }

    /// Reads the next character if it is `expected`, and says whether it was.
    pub fn matches(&mut self, expected: char) -> (r: bool)
        ensures
            r == (char_at(old(self).source@, old(self).current as int) == Some(expected)),
            final(self).current == if r {
                old(self).current + 1
            } else {
                old(self).current as int
            },
            final(self).source == old(self).source,
            final(self).start == old(self).start,
            final(self).line == old(self).line,
    {
        match self.peek() {
            Some(c) => {
                if c == expected {
                    self.advance();
                    true
                } else {
                    false
                }
            },
            None => false,
        }
    }

    /// The token of category `kind` that spans what was read since `start`.
    pub fn make_token(&self, kind: TokenType) -> (token: Token<'src>)
        requires
            self.positioned(),
        ensures
            token.kind == kind,
            token.lexeme@ == self.source@.subrange(self.start as int, self.current as int),
            token.line == self.line,
    {
        Token {
            kind,
            lexeme: self.source.substring_char(self.start, self.current),
            line: self.line,
        }
    }

    /// The `Error` token that carries `message` in place of a lexeme.
    pub fn error_token(&self, message: &'static str) -> (token: Token<'static>)
        ensures
            token.kind == TokenType::Error,
            token.lexeme == message,
            token.line == self.line,
    {
        Token { kind: TokenType::Error, lexeme: message, line: self.line }
    }
    /// Reads past blanks and comments, counting the line breaks among them.
    pub fn skip_whitespace(&mut self)
        requires
            old(self).wf(),
        ensures
            final(self).wf(),
            final(self).source == old(self).source,
            final(self).start == old(self).start,
            final(self).current == skip(old(self).source@, old(self).current as int, false),
    {
        let ghost src = self.source@;
        let ghost target = skip(src, self.current as int, false);
        loop
            invariant
                self.source == old(self).source,
                self.start == old(self).start,
                src == self.source@,
                old(self).start <= old(self).current <= self.current <= src.len(),
                self.synced(),
                fits(src),
                target == skip(src, self.current as int, false),
            ensures
                self.wf(),
                self.current == target,
            decreases src.len() - self.current,
        {
            match self.peek() {
                Some(c) => {
                    if c == ' ' || c == '\r' || c == '\t' {
                        self.advance();
                    } else if c == '\n' {
                        proof {
                            lemma_newlines_grow(src, self.current + 1, src.len() as int);
                        }
                        self.line = self.line + 1;
                        self.advance();
                    } else if c == '/' {
                        match self.peek_next() {
                            Some(d) => {
                                if d == '/' {
                                    assert(newlines(src, self.current + 1) == newlines(
                                        src,
                                        self.current as int,
                                    ));
                                    assert(newlines(src, self.current + 2) == newlines(
                                        src,
                                        self.current + 1,
                                    ));
                                    self.advance();
                                    self.advance();
                                    self.skip_line();
                                } else {
                                    break ;
                                }
                            },
                            None => {
                                break ;
                            },
                        }
                    } else {
                        break ;
                    }
                },
                None => {
                    break ;
                },
            }
        }
    }

    /// Reads up to the end of the line, leaving the line break unread.
    fn skip_line(&mut self)
        requires
            old(self).wf(),
        ensures
            final(self).wf(),
            final(self).source == old(self).source,
            final(self).start == old(self).start,
            old(self).current <= final(self).current,
            skip(final(self).source@, final(self).current as int, false) == skip(
                old(self).source@,
                old(self).current as int,
                true,
            ),
    {
        let ghost src = self.source@;
        loop
            invariant
                self.source == old(self).source,
                self.start == old(self).start,
                src == self.source@,
                old(self).start <= old(self).current <= self.current <= src.len(),
                self.synced(),
                fits(src),
                skip(src, self.current as int, true) == skip(src, old(self).current as int, true),
            ensures
                self.wf(),
                skip(src, self.current as int, false) == skip(src, old(self).current as int, true),
            decreases src.len() - self.current,
        {
            match self.peek() {
                Some(c) => {
                    if c == '\n' {
                        break ;
                    }
                    self.advance();
                },
                None => {
                    break ;
                },
            }
        }
    }

    /// Scans the rest of a string literal whose opening quote was read: up
    /// to the next quote, counting line breaks. Where the source ends first,
    /// the token is an error.
    pub fn string(&mut self) -> (token: Token<'src>)
        requires
            old(self).wf(),
        ensures
            final(self).wf(),
            final(self).source == old(self).source,
            final(self).start == old(self).start,
            ({
                let src = old(self).source@;
                let close = until(src, old(self).current as int, '"');
                if close < src.len() {
                    &&& final(self).current == close + 1
                    &&& token.kind == TokenType::String
                    &&& token.lexeme@ == src.subrange(old(self).start as int, close + 1)
                } else {
                    &&& final(self).current == src.len()
                    &&& token.kind == TokenType::Error
                    &&& token.lexeme@ == "Unterminated string."@
                }
            }),
            token.line == final(self).line,
    {
        let ghost src = self.source@;
        let ghost close = until(src, self.current as int, '"');
        loop
            invariant
                self.source == old(self).source,
                self.start == old(self).start,
                src == self.source@,
                old(self).start <= old(self).current <= self.current <= src.len(),
                self.synced(),
                fits(src),
                close == until(src, self.current as int, '"'),
            ensures
                self.wf(),
                self.current == close,
                self.current < src.len() ==> src[self.current as int] == '"',
            decreases src.len() - self.current,
        {
            match self.peek() {
                Some(c) => {
                    if c == '"' {
                        break ;
                    }
                    if c == '\n' {
                        proof {
                            lemma_newlines_grow(src, self.current + 1, src.len() as int);
                        }
                        self.line = self.line + 1;
                    }
                    self.advance();
                },
                None => {
                    break ;
                },
            }
        }
        match self.peek() {
            Some(_) => {
                assert(newlines(src, self.current + 1) == newlines(src, self.current as int));
                self.advance();
                self.make_token(TokenType::String)
            },
            None => self.error_token("Unterminated string."),
        }
    }

    /// Reads a run of numeric characters.
    fn digits(&mut self)
        requires
            old(self).wf(),
        ensures
            final(self).wf(),
            final(self).source == old(self).source,
            final(self).start == old(self).start,
            final(self).line == old(self).line,
            old(self).current <= final(self).current,
            final(self).current == digits_end(old(self).source@, old(self).current as int),
    {
        let ghost src = self.source@;
        loop
            invariant
                self.source == old(self).source,
                self.start == old(self).start,
                self.line == old(self).line,
                src == self.source@,
                old(self).start <= old(self).current <= self.current <= src.len(),
                self.synced(),
                fits(src),
                digits_end(src, self.current as int) == digits_end(src, old(self).current as int),
            ensures
                self.wf(),
                self.current == digits_end(src, old(self).current as int),
            decreases src.len() - self.current,
        {
            match self.peek() {
                Some(c) => {
                    if !is_numeric(c) {
                        break ;
                    }
                    self.advance();
                },
                None => {
                    break ;
                },
            }
        }
    }

    /// Scans the rest of a number literal whose first digit was read: more
    /// digits, then a `.` with digits behind it, if there is one.
    pub fn number(&mut self) -> (token: Token<'src>)
        requires
            old(self).wf(),
        ensures
            final(self).wf(),
            final(self).source == old(self).source,
            final(self).start == old(self).start,
            final(self).line == old(self).line,
            final(self).current == fraction_end(
                old(self).source@,
                digits_end(old(self).source@, old(self).current as int),
            ),
            token.kind == TokenType::Number,
            token.lexeme@ == old(self).source@.subrange(
                old(self).start as int,
                final(self).current as int,
            ),
            token.line == old(self).line,
    {
        self.digits();
        let mut fraction = false;
        match self.peek() {
            Some(c) => {
                if c == '.' {
                    match self.peek_next() {
                        Some(d) => {
                            fraction = is_numeric(d);
                        },
                        None => {},
                    }
                }
            },
            None => {},
        }
        if fraction {
            self.advance();
            self.digits();
        }
        self.make_token(TokenType::Number)
    }
    /// `kind` where the word in hand is `start` characters followed by
    /// exactly `rest`, else `Identifier`.
    pub fn check_keyword(&self, start: usize, rest: &str, kind: TokenType) -> (r: TokenType)
        requires
            self.positioned(),
        ensures
            r == rest_kind(
                self.source@.subrange(self.start as int, self.current as int),
                start as int,
                rest@,
                kind,
            ),
    {
        let ghost word = self.source@.subrange(self.start as int, self.current as int);
        let length = self.current - self.start;
        if start > length {
            return TokenType::Identifier;
        }
        let rest_length = rest.unicode_len();
        if length - start != rest_length {
            return TokenType::Identifier;
        }
        let from = self.start + start;
        let mut i: usize = 0;
        while i < rest_length
            invariant
                self.positioned(),
                word == self.source@.subrange(self.start as int, self.current as int),
                from == self.start + start,
                rest_length == rest@.len(),
                from + rest_length == self.current,
                i <= rest_length,
                forall|j: int| 0 <= j < i ==> word[start + j] == rest@[j],
            decreases rest_length - i,
        {
            if self.source.get_char(from + i) != rest.get_char(i) {
                assert(word.subrange(start as int, word.len() as int)[i as int] == word[start + i]);
                return TokenType::Identifier;
            }
            i += 1;
        }
        assert(word.subrange(start as int, word.len() as int) =~= rest@);
        kind
    }

    /// Reads a run of alphabetic characters.
    fn letters(&mut self)
        requires
            old(self).wf(),
        ensures
            final(self).wf(),
            final(self).source == old(self).source,
            final(self).start == old(self).start,
            final(self).line == old(self).line,
            old(self).current <= final(self).current,
            final(self).current == letters_end(old(self).source@, old(self).current as int),
    {
        let ghost src = self.source@;
        loop
            invariant
                self.source == old(self).source,
                self.start == old(self).start,
                self.line == old(self).line,
                src == self.source@,
                old(self).start <= old(self).current <= self.current <= src.len(),
                self.synced(),
                fits(src),
                letters_end(src, self.current as int) == letters_end(
                    src,
                    old(self).current as int,
                ),
            ensures
                self.wf(),
                self.current == letters_end(src, old(self).current as int),
            decreases src.len() - self.current,
        {
            match self.peek() {
                Some(c) => {
                    if !is_alphabetic(c) {
                        break ;
                    }
                    self.advance();
                },
                None => {
                    break ;
                },
            }
        }
    }

    /// Scans the rest of a word whose first letter was read, and tells a
    /// keyword from an identifier.
    pub fn identifier(&mut self) -> (token: Token<'src>)
        requires
            old(self).wf(),
            old(self).start < old(self).current,
        ensures
            final(self).wf(),
            final(self).source == old(self).source,
            final(self).start == old(self).start,
            final(self).line == old(self).line,
            final(self).current == letters_end(old(self).source@, old(self).current as int),
            token.kind == word_kind(token.lexeme@),
            token.lexeme@ == old(self).source@.subrange(
                old(self).start as int,
                final(self).current as int,
            ),
            token.line == old(self).line,
    {
        self.letters();
        let ghost word = self.source@.subrange(self.start as int, self.current as int);
        proof {
            lemma_trie(word);
        }
        let first = self.source.get_char(self.start);
        let kind = if first == 'a' {
            self.check_keyword(1, "nd", TokenType::And)
        } else if first == 'c' {
            self.check_keyword(1, "lass", TokenType::Class)
        } else if first == 'e' {
            self.check_keyword(1, "lse", TokenType::Else)
        } else if first == 'i' {
            self.check_keyword(1, "f", TokenType::If)
        } else if first == 'n' {
            self.check_keyword(1, "il", TokenType::Nil)
        } else if first == 'o' {
            self.check_keyword(1, "r", TokenType::Or)
        } else if first == 'p' {
            self.check_keyword(1, "rint", TokenType::Print)
        } else if first == 'r' {
            self.check_keyword(1, "eturn", TokenType::Return)
        } else if first == 's' {
            self.check_keyword(1, "uper", TokenType::Super)
        } else if first == 'v' {
            self.check_keyword(1, "ar", TokenType::Var)
        } else if first == 'w' {
            self.check_keyword(1, "hile", TokenType::While)
        } else if first == 'f' {
            if self.current - self.start > 1 {
                let second = self.source.get_char(self.start + 1);
                if second == 'a' {
                    self.check_keyword(2, "lse", TokenType::False)
                } else if second == 'o' {
                    self.check_keyword(2, "r", TokenType::For)
                } else if second == 'u' {
                    self.check_keyword(2, "n", TokenType::Fun)
                } else {
                    TokenType::Identifier
                }
            } else {
                TokenType::Identifier
            }
        } else if first == 't' {
            if self.current - self.start > 1 {
                let second = self.source.get_char(self.start + 1);
                if second == 'h' {
                    self.check_keyword(2, "is", TokenType::This)
                } else if second == 'r' {
                    self.check_keyword(2, "ue", TokenType::True)
                } else {
                    TokenType::Identifier
                }
            } else {
                TokenType::Identifier
            }
        } else {
            TokenType::Identifier
        };
        self.make_token(kind)
    }

    /// Scans the next token. After the last token of the source, every call
    /// gives `Eof`.
    pub fn scan_token(&mut self) -> (token: Token<'src>)
        requires
            old(self).wf(),
        ensures
            final(self).wf(),
            final(self).source == old(self).source,
            ({
                let lexed = scan(old(self).source@, old(self).current as int);
                &&& token.kind == lexed.kind
                &&& token.lexeme@ == lexed.lexeme
                &&& token.line == line_at(old(self).source@, lexed.end)
                &&& final(self).start == lexed.start
                &&& final(self).current == lexed.end
            }),
    {
        proof {
            lemma_skip(self.source@, self.current as int, false);
        }
        self.skip_whitespace();
        self.start = self.current;
        let ghost src = self.source@;
        let c = match self.advance() {
            Some(c) => c,
            None => {
                return self.make_token(TokenType::Eof);
            },
        };
        assert(newlines(src, self.start + 1) == newlines(src, self.start as int) + if c == '\n' {
            1int
        } else {
            0int
        });
        if c == '(' {
            self.make_token(TokenType::LeftParen)
        } else if c == ')' {
            self.make_token(TokenType::RightParen)
        } else if c == '{' {
            self.make_token(TokenType::LeftBrace)
        } else if c == '}' {
            self.make_token(TokenType::RightBrace)
        } else if c == ';' {
            self.make_token(TokenType::Semicolon)
        } else if c == ',' {
            self.make_token(TokenType::Comma)
        } else if c == '.' {
            self.make_token(TokenType::Dot)
        } else if c == '-' {
            self.make_token(TokenType::Minus)
        } else if c == '+' {
            self.make_token(TokenType::Plus)
        } else if c == '/' {
            self.make_token(TokenType::Slash)
        } else if c == '*' {
            self.make_token(TokenType::Star)
        } else if c == '!' {
            self.operator(TokenType::Bang, TokenType::BangEqual)
        } else if c == '=' {
            self.operator(TokenType::Equal, TokenType::EqualEqual)
        } else if c == '<' {
            self.operator(TokenType::Less, TokenType::LessEqual)
        } else if c == '>' {
            self.operator(TokenType::Greater, TokenType::GreaterEqual)
        } else if c == '"' {
            self.string()
        } else if '0' <= c && c <= '9' {
            self.number()
        } else if is_alphabetic(c) {
            self.identifier()
        } else {
            self.error_token("Unexpected character.")
        }
    }

    /// Finishes an operator that `=` may follow, after its first character.
    fn operator(&mut self, single: TokenType, pair: TokenType) -> (token: Token<'src>)
        requires
            old(self).wf(),
            old(self).current == old(self).start + 1,
        ensures
            final(self).wf(),
            final(self).source == old(self).source,
            final(self).start == old(self).start,
            final(self).line == old(self).line,
            ({
                let lexed = operator(old(self).source@, old(self).start as int, single, pair);
                &&& token.kind == lexed.kind
                &&& token.lexeme@ == lexed.lexeme
                &&& final(self).current == lexed.end
            }),
            token.line == old(self).line,
    {
        assert(newlines(self.source@, self.current + 1) == newlines(
            self.source@,
            self.current as int,
        ) + if char_at(self.source@, self.current as int) == Some('\n') {
            1int
        } else {
            0int
        });
        if self.matches('=') {
            self.make_token(pair)
        } else {
            self.make_token(single)
        }
    }
}

/// Whether every line number of `source` fits the line counter.
pub fn source_fits(source: &str) -> (r: bool)
    ensures
        r == fits(source@),
{
    broadcast use vstd::string::group_string_axioms;

    let length = source.unicode_len();
    let mut count: usize = 0;
    for c in iter: source.chars()
        invariant
            length == source@.len(),
            iter.seq() == source@,
            count == newlines(source@, iter.index() as int),
            count <= iter.index() <= length,
    {
        if c == '\n' {
            count = count + 1;
        }
    }
    count < 0x7fff_ffff
}

} // verus!
