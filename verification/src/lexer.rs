use crate::chars::{
    digit, is_digit, is_whitespace, is_word_char, same_text, whitespace, word_char,
};
use crate::decimal::{decimal, decimal_value, push_decimal};
use crate::errors::{fail, Error, ErrorKind, SpecError, SpecErrorKind};
use vstd::prelude::*;
use vstd::string::StringExecFns;

verus! {

/// A word of the language that is reserved for its grammar.
///
/// The words of pointers and subscripts are spelled as this library chose to
/// spell them: `pointing`, `at`, `get`, `address`, `of`, `what`,
/// `array_start` and `array_end`. They are reserved like the others, so that
/// none of them can name a variable or a function.
#[derive(Debug, Clone, Copy, PartialEq, Eq, Structural)]
pub enum Keyword {
    Fn,
    Is,
    Numbered,
    Shall,
    Be,
    Equal,
    To,
    I32,
    Return,
    In,
    The,
    Case,
    That,
    Do,
    Or,
    I,
    Am,
    Declaring,
    A,
    Variable,
    Named,
    Now,
    Period,
    During,
    Not,
    Zero,
    Invoke,
    And,
    It,
    Take,
    Parameters,
    Pointing,
    At,
    Get,
    Address,
    Of,
    What,
    ArrayStart,
    ArrayEnd,
}

/// What a token is: a number, a keyword, an identifier, punctuation spelled
/// as a word, or the end of the input.
#[derive(Debug, Clone, PartialEq)]
pub enum TokenKind {
    Number(u64),
    Keyword(Keyword),
    Identifier(String),
    LBrace,
    RBrace,
    LParen,
    RParen,
    LBracket,
    RBracket,
    Plus,
    Minus,
    Mul,
    Div,
    Mod,
    Semicolon,
    Comma,
    EOF,
}

/// The mathematical value of a [`TokenKind`].
pub enum SpecTokenKind {
    Number(u64),
    Keyword(Keyword),
    Identifier(Seq<char>),
    LBrace,
    RBrace,
    LParen,
    RParen,
    LBracket,
    RBracket,
    Plus,
    Minus,
    Mul,
    Div,
    Mod,
    Semicolon,
    Comma,
    EOF,
}

impl View for TokenKind {
    type V = SpecTokenKind;

    open spec fn view(&self) -> SpecTokenKind {
        match self {
            TokenKind::Number(n) => SpecTokenKind::Number(*n),
            TokenKind::Keyword(k) => SpecTokenKind::Keyword(*k),
            TokenKind::Identifier(name) => SpecTokenKind::Identifier(name@),
            TokenKind::LBrace => SpecTokenKind::LBrace,
            TokenKind::RBrace => SpecTokenKind::RBrace,
            TokenKind::LParen => SpecTokenKind::LParen,
            TokenKind::RParen => SpecTokenKind::RParen,
            TokenKind::LBracket => SpecTokenKind::LBracket,
            TokenKind::RBracket => SpecTokenKind::RBracket,
            TokenKind::Plus => SpecTokenKind::Plus,
            TokenKind::Minus => SpecTokenKind::Minus,
            TokenKind::Mul => SpecTokenKind::Mul,
            TokenKind::Div => SpecTokenKind::Div,
            TokenKind::Mod => SpecTokenKind::Mod,
            TokenKind::Semicolon => SpecTokenKind::Semicolon,
            TokenKind::Comma => SpecTokenKind::Comma,
            TokenKind::EOF => SpecTokenKind::EOF,
        }
    }
}

/// A token and the line, counted from one, on which it starts.
#[derive(Debug, Clone)]
pub struct Token {
    pub kind: TokenKind,
    pub line: usize,
}

/// The mathematical value of a [`Token`].
pub struct SpecToken {
    pub kind: SpecTokenKind,
    pub line: nat,
}

impl View for Token {
    type V = SpecToken;

    open spec fn view(&self) -> SpecToken {
        SpecToken { kind: self.kind@, line: self.line as nat }
    }
}

/// How a keyword is shown in a message.
pub open spec fn keyword_text(keyword: Keyword) -> Seq<char> {
    match keyword {
        Keyword::Fn => "function"@,
        Keyword::Is => "is"@,
        Keyword::Numbered => "numbered"@,
        Keyword::Shall => "shall"@,
        Keyword::Be => "be"@,
        Keyword::Equal => "equal"@,
        Keyword::To => "to"@,
        Keyword::I32 => "integer meaning whole in latin with exactly thirty two bits"@,
        Keyword::Return => "return"@,
        Keyword::In => "in"@,
        Keyword::The => "the"@,
        Keyword::Case => "case"@,
        Keyword::That => "that"@,
        Keyword::Do => "do"@,
        Keyword::Or => "or"@,
        Keyword::I => "i"@,
        Keyword::Am => "am"@,
        Keyword::Declaring => "declaring"@,
        Keyword::A => "a"@,
        Keyword::Variable => "variable"@,
        Keyword::Named => "named"@,
        Keyword::Now => "now"@,
        Keyword::Period => "period"@,
        Keyword::During => "during"@,
        Keyword::Not => "not"@,
        Keyword::Zero => "zero"@,
        Keyword::Invoke => "invoke"@,
        Keyword::And => "and"@,
        Keyword::It => "it"@,
        Keyword::Take => "take"@,
        Keyword::Parameters => "parameters"@,
        Keyword::Pointing => "pointing"@,
        Keyword::At => "at"@,
        Keyword::Get => "get"@,
        Keyword::Address => "address"@,
        Keyword::Of => "of"@,
        Keyword::What => "what"@,
        Keyword::ArrayStart => "array_start"@,
        Keyword::ArrayEnd => "array_end"@,
    }
}

/// How a token is shown in a message: a number in decimal notation, an
/// identifier as itself, a reserved word as it is written.
pub open spec fn kind_text(kind: SpecTokenKind) -> Seq<char> {
    match kind {
        SpecTokenKind::Number(n) => decimal(n as nat),
        SpecTokenKind::Keyword(k) => keyword_text(k),
        SpecTokenKind::Identifier(name) => name,
        SpecTokenKind::LBrace => "left_brace"@,
        SpecTokenKind::RBrace => "right_brace"@,
        SpecTokenKind::LParen => "left_parenthesis"@,
        SpecTokenKind::RParen => "right_parenthesis"@,
        SpecTokenKind::LBracket => "left_bracket"@,
        SpecTokenKind::RBracket => "right_bracket"@,
        SpecTokenKind::Plus => "plus"@,
        SpecTokenKind::Minus => "minus"@,
        SpecTokenKind::Mul => "times"@,
        SpecTokenKind::Div => "div"@,
        SpecTokenKind::Mod => "mod"@,
        SpecTokenKind::Semicolon => "semicolon"@,
        SpecTokenKind::Comma => "comma"@,
        SpecTokenKind::EOF => "EOF"@,
    }
}

impl Keyword {
    /// The keyword as it is shown in a message.
    pub fn to_string(&self) -> (r: String)
        ensures
            r@ == keyword_text(*self),
    {
        String::from_str(
            match self {
                Keyword::Fn => "function",
                Keyword::Is => "is",
                Keyword::Numbered => "numbered",
                Keyword::Shall => "shall",
                Keyword::Be => "be",
                Keyword::Equal => "equal",
                Keyword::To => "to",
                Keyword::I32 => "integer meaning whole in latin with exactly thirty two bits",
                Keyword::Return => "return",
                Keyword::In => "in",
                Keyword::The => "the",
                Keyword::Case => "case",
                Keyword::That => "that",
                Keyword::Do => "do",
                Keyword::Or => "or",
                Keyword::I => "i",
                Keyword::Am => "am",
                Keyword::Declaring => "declaring",
                Keyword::A => "a",
                Keyword::Variable => "variable",
                Keyword::Named => "named",
                Keyword::Now => "now",
                Keyword::Period => "period",
                Keyword::During => "during",
                Keyword::Not => "not",
                Keyword::Zero => "zero",
                Keyword::Invoke => "invoke",
                Keyword::And => "and",
                Keyword::It => "it",
                Keyword::Take => "take",
                Keyword::Parameters => "parameters",
                Keyword::Pointing => "pointing",
                Keyword::At => "at",
                Keyword::Get => "get",
                Keyword::Address => "address",
                Keyword::Of => "of",
                Keyword::What => "what",
                Keyword::ArrayStart => "array_start",
                Keyword::ArrayEnd => "array_end",
            },
        )
    }
}

impl TokenKind {
    /// The token as it is shown in a message.
    pub fn to_string(&self) -> (r: String)
        ensures
            r@ == kind_text(self@),
    {
        match self {
            TokenKind::Number(n) => {
                let mut text = String::new();
                push_decimal(&mut text, *n);
                assert(text@ =~= decimal(*n as nat));
                text
            },
            TokenKind::Keyword(k) => k.to_string(),
            TokenKind::Identifier(name) => name.clone(),
            TokenKind::LBrace => String::from_str("left_brace"),
            TokenKind::RBrace => String::from_str("right_brace"),
            TokenKind::LParen => String::from_str("left_parenthesis"),
            TokenKind::RParen => String::from_str("right_parenthesis"),
            TokenKind::LBracket => String::from_str("left_bracket"),
            TokenKind::RBracket => String::from_str("right_bracket"),
            TokenKind::Plus => String::from_str("plus"),
            TokenKind::Minus => String::from_str("minus"),
            TokenKind::Mul => String::from_str("times"),
            TokenKind::Div => String::from_str("div"),
            TokenKind::Mod => String::from_str("mod"),
            TokenKind::Semicolon => String::from_str("semicolon"),
            TokenKind::Comma => String::from_str("comma"),
            TokenKind::EOF => String::from_str("EOF"),
        }
    }

    /// Tests whether two kinds of token are the same.
    pub fn same(&self, other: &TokenKind) -> (r: bool)
        ensures
            r == (self@ == other@),
    {
        match (self, other) {
            (TokenKind::Number(a), TokenKind::Number(b)) => *a == *b,
            (TokenKind::Keyword(a), TokenKind::Keyword(b)) => *a == *b,
            (TokenKind::Identifier(a), TokenKind::Identifier(b)) => *a == *b,
            (TokenKind::LBrace, TokenKind::LBrace) => true,
            (TokenKind::RBrace, TokenKind::RBrace) => true,
            (TokenKind::LParen, TokenKind::LParen) => true,
            (TokenKind::RParen, TokenKind::RParen) => true,
            (TokenKind::LBracket, TokenKind::LBracket) => true,
            (TokenKind::RBracket, TokenKind::RBracket) => true,
            (TokenKind::Plus, TokenKind::Plus) => true,
            (TokenKind::Minus, TokenKind::Minus) => true,
            (TokenKind::Mul, TokenKind::Mul) => true,
            (TokenKind::Div, TokenKind::Div) => true,
            (TokenKind::Mod, TokenKind::Mod) => true,
            (TokenKind::Semicolon, TokenKind::Semicolon) => true,
            (TokenKind::Comma, TokenKind::Comma) => true,
            (TokenKind::EOF, TokenKind::EOF) => true,
            _ => false,
        }
    }
}

/// The token that the word `word` is: reserved if it is spelled as a keyword
/// or as punctuation, an identifier otherwise.
pub open spec fn word_kind(word: Seq<char>) -> SpecTokenKind {
    if word == "function"@ {
        SpecTokenKind::Keyword(Keyword::Fn)
    } else if word == "is"@ {
        SpecTokenKind::Keyword(Keyword::Is)
    } else if word == "numbered"@ {
        SpecTokenKind::Keyword(Keyword::Numbered)
    } else if word == "shall"@ {
        SpecTokenKind::Keyword(Keyword::Shall)
    } else if word == "be"@ {
        SpecTokenKind::Keyword(Keyword::Be)
    } else if word == "equal"@ {
        SpecTokenKind::Keyword(Keyword::Equal)
    } else if word == "to"@ {
        SpecTokenKind::Keyword(Keyword::To)
    } else if word == "integer_meaning_whole_in_latin_with_exactly_thirty_two_bits"@ {
        SpecTokenKind::Keyword(Keyword::I32)
    } else if word == "return"@ {
        SpecTokenKind::Keyword(Keyword::Return)
    } else if word == "in"@ {
        SpecTokenKind::Keyword(Keyword::In)
    } else if word == "the"@ {
        SpecTokenKind::Keyword(Keyword::The)
    } else if word == "case"@ {
        SpecTokenKind::Keyword(Keyword::Case)
    } else if word == "that"@ {
        SpecTokenKind::Keyword(Keyword::That)
    } else if word == "do"@ {
        SpecTokenKind::Keyword(Keyword::Do)
    } else if word == "or"@ {
        SpecTokenKind::Keyword(Keyword::Or)
    } else if word == "i"@ {
        SpecTokenKind::Keyword(Keyword::I)
    } else if word == "am"@ {
        SpecTokenKind::Keyword(Keyword::Am)
    } else if word == "declaring"@ {
        SpecTokenKind::Keyword(Keyword::Declaring)
    } else if word == "a"@ {
        SpecTokenKind::Keyword(Keyword::A)
    } else if word == "variable"@ {
        SpecTokenKind::Keyword(Keyword::Variable)
    } else if word == "named"@ {
        SpecTokenKind::Keyword(Keyword::Named)
    } else if word == "now"@ {
        SpecTokenKind::Keyword(Keyword::Now)
    } else if word == "period"@ {
        SpecTokenKind::Keyword(Keyword::Period)
    } else if word == "during"@ {
        SpecTokenKind::Keyword(Keyword::During)
    } else if word == "not"@ {
        SpecTokenKind::Keyword(Keyword::Not)
    } else if word == "zero"@ {
        SpecTokenKind::Keyword(Keyword::Zero)
    } else if word == "invoke"@ {
        SpecTokenKind::Keyword(Keyword::Invoke)
    } else if word == "and"@ {
        SpecTokenKind::Keyword(Keyword::And)
    } else if word == "it"@ {
        SpecTokenKind::Keyword(Keyword::It)
    } else if word == "take"@ {
        SpecTokenKind::Keyword(Keyword::Take)
    } else if word == "parameters"@ {
        SpecTokenKind::Keyword(Keyword::Parameters)
    } else if word == "pointing"@ {
        SpecTokenKind::Keyword(Keyword::Pointing)
    } else if word == "at"@ {
        SpecTokenKind::Keyword(Keyword::At)
    } else if word == "get"@ {
        SpecTokenKind::Keyword(Keyword::Get)
    } else if word == "address"@ {
        SpecTokenKind::Keyword(Keyword::Address)
    } else if word == "of"@ {
        SpecTokenKind::Keyword(Keyword::Of)
    } else if word == "what"@ {
        SpecTokenKind::Keyword(Keyword::What)
    } else if word == "array_start"@ {
        SpecTokenKind::Keyword(Keyword::ArrayStart)
    } else if word == "array_end"@ {
        SpecTokenKind::Keyword(Keyword::ArrayEnd)
    } else if word == "left_brace"@ {
        SpecTokenKind::LBrace
    } else if word == "right_brace"@ {
        SpecTokenKind::RBrace
    } else if word == "left_parenthesis"@ {
        SpecTokenKind::LParen
    } else if word == "right_parenthesis"@ {
        SpecTokenKind::RParen
    } else if word == "left_bracket"@ {
        SpecTokenKind::LBracket
    } else if word == "right_bracket"@ {
        SpecTokenKind::RBracket
    } else if word == "plus"@ {
        SpecTokenKind::Plus
    } else if word == "minus"@ {
        SpecTokenKind::Minus
    } else if word == "times"@ {
        SpecTokenKind::Mul
    } else if word == "div"@ {
        SpecTokenKind::Div
    } else if word == "mod"@ {
        SpecTokenKind::Mod
    } else if word == "semicolon"@ {
        SpecTokenKind::Semicolon
    } else if word == "comma"@ {
        SpecTokenKind::Comma
    } else {
        SpecTokenKind::Identifier(word)
    }
}

/// Finds the token that `word` is.
fn classify(word: &str) -> (r: TokenKind)
    ensures
        r@ == word_kind(word@),
{
    if same_text(word, "function") {
        TokenKind::Keyword(Keyword::Fn)
    } else if same_text(word, "is") {
        TokenKind::Keyword(Keyword::Is)
    } else if same_text(word, "numbered") {
        TokenKind::Keyword(Keyword::Numbered)
    } else if same_text(word, "shall") {
        TokenKind::Keyword(Keyword::Shall)
    } else if same_text(word, "be") {
        TokenKind::Keyword(Keyword::Be)
    } else if same_text(word, "equal") {
        TokenKind::Keyword(Keyword::Equal)
    } else if same_text(word, "to") {
        TokenKind::Keyword(Keyword::To)
    } else if same_text(word, "integer_meaning_whole_in_latin_with_exactly_thirty_two_bits") {
        TokenKind::Keyword(Keyword::I32)
    } else if same_text(word, "return") {
        TokenKind::Keyword(Keyword::Return)
    } else if same_text(word, "in") {
        TokenKind::Keyword(Keyword::In)
    } else if same_text(word, "the") {
        TokenKind::Keyword(Keyword::The)
    } else if same_text(word, "case") {
        TokenKind::Keyword(Keyword::Case)
    } else if same_text(word, "that") {
        TokenKind::Keyword(Keyword::That)
    } else if same_text(word, "do") {
        TokenKind::Keyword(Keyword::Do)
    } else if same_text(word, "or") {
        TokenKind::Keyword(Keyword::Or)
    } else if same_text(word, "i") {
        TokenKind::Keyword(Keyword::I)
    } else if same_text(word, "am") {
        TokenKind::Keyword(Keyword::Am)
    } else if same_text(word, "declaring") {
        TokenKind::Keyword(Keyword::Declaring)
    } else if same_text(word, "a") {
        TokenKind::Keyword(Keyword::A)
    } else if same_text(word, "variable") {
        TokenKind::Keyword(Keyword::Variable)
    } else if same_text(word, "named") {
        TokenKind::Keyword(Keyword::Named)
    } else if same_text(word, "now") {
        TokenKind::Keyword(Keyword::Now)
    } else if same_text(word, "period") {
        TokenKind::Keyword(Keyword::Period)
    } else if same_text(word, "during") {
        TokenKind::Keyword(Keyword::During)
    } else if same_text(word, "not") {
        TokenKind::Keyword(Keyword::Not)
    } else if same_text(word, "zero") {
        TokenKind::Keyword(Keyword::Zero)
    } else if same_text(word, "invoke") {
        TokenKind::Keyword(Keyword::Invoke)
    } else if same_text(word, "and") {
        TokenKind::Keyword(Keyword::And)
    } else if same_text(word, "it") {
        TokenKind::Keyword(Keyword::It)
    } else if same_text(word, "take") {
        TokenKind::Keyword(Keyword::Take)
    } else if same_text(word, "parameters") {
        TokenKind::Keyword(Keyword::Parameters)
    } else if same_text(word, "pointing") {
        TokenKind::Keyword(Keyword::Pointing)
    } else if same_text(word, "at") {
        TokenKind::Keyword(Keyword::At)
    } else if same_text(word, "get") {
        TokenKind::Keyword(Keyword::Get)
    } else if same_text(word, "address") {
        TokenKind::Keyword(Keyword::Address)
    } else if same_text(word, "of") {
        TokenKind::Keyword(Keyword::Of)
    } else if same_text(word, "what") {
        TokenKind::Keyword(Keyword::What)
    } else if same_text(word, "array_start") {
        TokenKind::Keyword(Keyword::ArrayStart)
    } else if same_text(word, "array_end") {
        TokenKind::Keyword(Keyword::ArrayEnd)
    } else if same_text(word, "left_brace") {
        TokenKind::LBrace
    } else if same_text(word, "right_brace") {
        TokenKind::RBrace
    } else if same_text(word, "left_parenthesis") {
        TokenKind::LParen
    } else if same_text(word, "right_parenthesis") {
        TokenKind::RParen
    } else if same_text(word, "left_bracket") {
        TokenKind::LBracket
    } else if same_text(word, "right_bracket") {
        TokenKind::RBracket
    } else if same_text(word, "plus") {
        TokenKind::Plus
    } else if same_text(word, "minus") {
        TokenKind::Minus
    } else if same_text(word, "times") {
        TokenKind::Mul
    } else if same_text(word, "div") {
        TokenKind::Div
    } else if same_text(word, "mod") {
        TokenKind::Mod
    } else if same_text(word, "semicolon") {
        TokenKind::Semicolon
    } else if same_text(word, "comma") {
        TokenKind::Comma
    } else {
        TokenKind::Identifier(String::from_str(word))
    }
}


/// The character at `position`, or the null character past the end.
pub open spec fn char_at(input: Seq<char>, position: nat) -> char {
    if position < input.len() {
        input[position as int]
    } else {
        '\0'
    }
}

/// Where the white space that starts at `position` ends, and the line that
/// is reached there when `position` is on line `line`: each line feed passed
/// starts a new line.
pub open spec fn skip_blanks(input: Seq<char>, position: nat, line: nat) -> (nat, nat)
    decreases input.len() - position,
{
    if position < input.len() && is_whitespace(input[position as int]) {
        skip_blanks(
            input,
            position + 1,
            if input[position as int] == '\n' {
                line + 1
            } else {
                line
            },
        )
    } else {
        (position, line)
    }
}

/// Where the run of digits that starts at `position` ends.
pub open spec fn digits_end(input: Seq<char>, position: nat) -> nat
    decreases input.len() - position,
{
    if position < input.len() && is_digit(input[position as int]) {
        digits_end(input, position + 1)
    } else {
        position
    }
}

/// Where the run of word characters that starts at `position` ends.
pub open spec fn word_end(input: Seq<char>, position: nat) -> nat
    decreases input.len() - position,
{
    if position < input.len() && is_word_char(input[position as int]) {
        word_end(input, position + 1)
    } else {
        position
    }
}

/// The number written by the run of digits that starts at `position`.
pub open spec fn literal_at(input: Seq<char>, position: nat) -> nat {
    decimal_value(input.subrange(position as int, digits_end(input, position) as int))
}

/// Whether every number that tokenizing `input` from `position` on reaches
/// is of at most 64 bits. Tokenizing reaches no further than the first
/// character of no word, and no further than a null character.
pub open spec fn literals_fit(input: Seq<char>, position: nat) -> bool
    decreases input.len() - position,
{
    let start = skip_blanks(input, position, 0).0;
    let c = char_at(input, start);
    if is_digit(c) {
        proof {
            lemma_skip_blanks(input, position, 0);
            lemma_digits_end(input, start);
            lemma_digits_end(input, start + 1);
        }
        literal_at(input, start) <= u64::MAX && literals_fit(input, digits_end(input, start))
    } else if c == '\0' || word_end(input, start) == start {
        true
    } else {
        proof {
            lemma_skip_blanks(input, position, 0);
            lemma_word_end(input, start);
        }
        literals_fit(input, word_end(input, start))
    }
}

/// Whether `input` can be tokenized on this machine: its length is below the
/// largest `usize`, and every number that tokenizing it reaches is of at
/// most 64 bits.
pub open spec fn lexable(input: Seq<char>) -> bool {
    input.len() < usize::MAX && literals_fit(input, 0)
}

/// Where white space ends does not depend on the line it starts on, and
/// where it ends no white space starts.
pub proof fn lemma_blanks(input: Seq<char>, position: nat, first: nat, second: nat)
    ensures
        skip_blanks(input, position, first).0 == skip_blanks(input, position, second).0,
        skip_blanks(input, skip_blanks(input, position, first).0, second) == (
            skip_blanks(input, position, first).0,
            second,
        ),
    decreases input.len() - position,
{
    if position < input.len() && is_whitespace(input[position as int]) {
        let c = input[position as int];
        lemma_blanks(
            input,
            position + 1,
            if c == '\n' {
                first + 1
            } else {
                first
            },
            if c == '\n' {
                second + 1
            } else {
                second
            },
        );
        lemma_blanks(
            input,
            position + 1,
            if c == '\n' {
                first + 1
            } else {
                first
            },
            second,
        );
    }
}

/// Whether the step of tokenizing `input` from `position` meets a number
/// of more than 64 bits, which no token can hold.
pub open spec fn overlong_at(input: Seq<char>, position: nat) -> bool {
    let start = skip_blanks(input, position, 0).0;
    is_digit(char_at(input, start)) && literal_at(input, start) > u64::MAX
}

/// What ends the reading of a text before its end: an error of the text, or
/// a limit of the machine, which is a number of more than 64 bits or a text
/// of as many characters as the largest `usize`. Up to an error of the text
/// every function of this library can be called; none may read into a limit
/// of the machine.
pub enum Stop {
    Failure(SpecError),
    Limit,
}

/// Whether `outcome` stays within the limits of the machine.
pub open spec fn within_limits<T>(outcome: Result<T, Stop>) -> bool {
    !(outcome matches Err(Stop::Limit))
}

/// One step of tokenizing: the token found or the error met, and the
/// position and line reached.
pub struct Lexed {
    pub outcome: Result<SpecToken, SpecError>,
    pub position: nat,
    pub line: nat,
}

/// The step of tokenizing `input` from `position`, which is on line `line`.
///
/// White space is skipped first. Then a digit starts a number, which runs as
/// far as digits go; the null character, or the end of the input, is the end
/// of the input, which is not passed; anything else starts a word, which runs
/// as far as letters, digits and underscores go, and a character that no
/// word can start with is an error there.
pub open spec fn lex(input: Seq<char>, position: nat, line: nat) -> Lexed {
    let (start, line) = skip_blanks(input, position, line);
    let c = char_at(input, start);
    if is_digit(c) {
        Lexed {
            outcome: Ok(
                SpecToken { kind: SpecTokenKind::Number(literal_at(input, start) as u64), line },
            ),
            position: digits_end(input, start),
            line,
        }
    } else if c == '\0' {
        Lexed { outcome: Ok(SpecToken { kind: SpecTokenKind::EOF, line }), position: start, line }
    } else if word_end(input, start) == start {
        Lexed {
            outcome: Err(fail(SpecErrorKind::UnexpectedChar(c), line)),
            position: start,
            line,
        }
    } else {
        Lexed {
            outcome: Ok(
                SpecToken {
                    kind: word_kind(input.subrange(start as int, word_end(input, start) as int)),
                    line,
                },
            ),
            position: word_end(input, start),
            line,
        }
    }
}

/// White space ends at or after the place it starts, within the input, and
/// no line is passed without a character.
pub proof fn lemma_skip_blanks(input: Seq<char>, position: nat, line: nat)
    ensures
        position <= skip_blanks(input, position, line).0,
        position <= input.len() ==> skip_blanks(input, position, line).0 <= input.len(),
        position >= input.len() ==> skip_blanks(input, position, line).0 == position,
        line <= skip_blanks(input, position, line).1,
        skip_blanks(input, position, line).1 - line <= skip_blanks(input, position, line).0
            - position,
    decreases input.len() - position,
{
    if position < input.len() && is_whitespace(input[position as int]) {
        lemma_skip_blanks(
            input,
            position + 1,
            if input[position as int] == '\n' {
                line + 1
            } else {
                line
            },
        );
    }
}

/// A run of digits ends at or after the place it starts, within the input,
/// and holds digits only.
pub proof fn lemma_digits_end(input: Seq<char>, position: nat)
    ensures
        position <= digits_end(input, position),
        position <= input.len() ==> digits_end(input, position) <= input.len(),
        forall|i: int| position <= i < digits_end(input, position) ==> is_digit(#[trigger] input[i]),
    decreases input.len() - position,
{
    if position < input.len() && is_digit(input[position as int]) {
        lemma_digits_end(input, position + 1);
    }
}

/// A run of word characters ends at or after the place it starts, within
/// the input.
pub proof fn lemma_word_end(input: Seq<char>, position: nat)
    ensures
        position <= word_end(input, position),
        position <= input.len() ==> word_end(input, position) <= input.len(),
    decreases input.len() - position,
{
    if position < input.len() && is_word_char(input[position as int]) {
        lemma_word_end(input, position + 1);
    }
}

/// The start of a number writes no more than the whole of it.
pub proof fn lemma_prefix_value(digits: Seq<char>, length: nat)
    requires
        length <= digits.len(),
    ensures
        decimal_value(digits.subrange(0, length as int)) <= decimal_value(digits),
    decreases digits.len(),
{
    if length < digits.len() {
        lemma_prefix_value(digits.drop_last(), length);
        assert(digits.drop_last().subrange(0, length as int) =~= digits.subrange(
            0,
            length as int,
        ));
    } else {
        assert(digits.subrange(0, length as int) =~= digits);
    }
}

/// A step of tokenizing goes forward: it ends at or after the place it
/// starts and within the input, passes no line without a character, and
/// passes at least one character where it finds a token that is not the end
/// of the input.
pub proof fn lemma_lex_advances(input: Seq<char>, position: nat, line: nat)
    ensures
        position <= lex(input, position, line).position,
        position <= input.len() ==> lex(input, position, line).position <= input.len(),
        line <= lex(input, position, line).line,
        lex(input, position, line).line - line <= lex(input, position, line).position - position,
        lex(input, position, line).outcome matches Ok(token) ==> (token.kind is EOF || position
            < lex(input, position, line).position <= input.len()),
{
    lemma_skip_blanks(input, position, line);
    let (start, reached) = skip_blanks(input, position, line);
    lemma_digits_end(input, start);
    lemma_word_end(input, start);
    if start < input.len() {
        lemma_digits_end(input, start + 1);
        lemma_word_end(input, start + 1);
    }
}

/// A tokenizer over a text: where it stands, and on which line.
#[derive(Debug, Clone, Copy)]
pub struct Lexer<'a> {
    /// The text.
    pub input: &'a str,
    /// The line, counted from one, that the tokenizer stands on.
    pub line: usize,
    /// The number of characters passed.
    pub position: usize,
    /// The character at that position, or the null character past the end.
    pub current_char: char,
    /// The number of characters of the text.
    pub length: usize,
}

impl<'a> Lexer<'a> {
    /// The text being tokenized.
    pub open spec fn text(&self) -> Seq<char> {
        self.input@
    }

    /// The number of characters passed.
    pub open spec fn position(&self) -> nat {
        self.position as nat
    }

    /// The line, counted from one, that the tokenizer stands on.
    pub open spec fn line(&self) -> nat {
        self.line as nat
    }

    /// Whether the tokenizer stands within its text and has counted no more
    /// lines than it has passed characters.
    pub open spec fn placed(&self) -> bool {
        &&& self.length == self.input@.len()
        &&& self.length < usize::MAX
        &&& self.position <= self.length
        &&& self.current_char == char_at(self.input@, self.position as nat)
        &&& self.line <= self.position + 1
    }

    /// Whether the tokenizer is consistent: it stands within its text, and
    /// has counted no more lines than it has passed characters.
    pub open spec fn wf(&self) -> bool {
        self.placed()
    }

    /// A consistent tokenizer stands within its text, and has counted no
    /// more lines than it has passed characters.
    pub proof fn lemma_wf(&self)
        requires
            self.wf(),
        ensures
            self.text().len() < usize::MAX,
            self.position() <= self.text().len(),
            self.line() <= self.position() + 1,
    {
    }

    /// Whether the token that `next_token` reads from here is within the
    /// limits of the machine: no number of more than 64 bits.
    pub open spec fn reads_on(&self) -> bool {
        !overlong_at(self.text(), self.position())
    }

    /// The step that `next_token` takes from here.
    pub open spec fn step(&self) -> Lexed {
        lex(self.text(), self.position(), self.line())
    }

    /// A tokenizer at the start of `input`, on line one.
    pub fn new(input: &'a str) -> (r: Self)
        requires
            input@.len() < usize::MAX,
        ensures
            r.wf(),
            r.text() == input@,
            r.position() == 0,
            r.line() == 1,
    {
        let length = input.unicode_len();
        Self {
            input,
            line: 1,
            position: 0,
            current_char: if length > 0 {
                input.get_char(0)
            } else {
                '\0'
            },
            length,
        }
    }

    /// Passes one character.
    fn advance(&mut self)
        requires
            old(self).placed(),
            old(self).position < old(self).length,
        ensures
            final(self).placed(),
            final(self).input == old(self).input,
            final(self).length == old(self).length,
            final(self).line == old(self).line,
            final(self).position == old(self).position + 1,
    {
        self.position += 1;
        if self.position < self.length {
            self.current_char = self.input.get_char(self.position);
        } else {
            self.current_char = '\0';
        }
    }

    /// Reads the next token and passes it. At the end of the input the token
    /// is `EOF`, again and again.
    #[verifier::loop_isolation(false)]
    #[verifier::rlimit(100)]
    pub fn next_token(&mut self) -> (r: Result<Token, Error>)
        requires
            old(self).wf(),
            old(self).reads_on(),
        ensures
            final(self).wf(),
            final(self).text() == old(self).text(),
            final(self).position() == old(self).step().position,
            final(self).line() == old(self).step().line,
            match r {
                Ok(token) => old(self).step().outcome == Ok::<SpecToken, SpecError>(token@),
                Err(e) => old(self).step().outcome == Err::<SpecToken, SpecError>(e@),
            },
    {
        let ghost input = self.input@;
        let ghost from = self.position as nat;
        while self.position < self.length && whitespace(self.current_char)
            invariant
                self.placed(),
                self.input == old(self).input,
                skip_blanks(input, self.position as nat, self.line as nat) == skip_blanks(
                    input,
                    old(self).position as nat,
                    old(self).line as nat,
                ),
            decreases self.length - self.position,
        {
            let newline = self.current_char == '\n';
            self.advance();
            if newline {
                self.line += 1;
            }
        }
        let line = self.line;
        let start = self.position;
        proof {
            lemma_blanks(input, from, old(self).line as nat, 0);
            lemma_blanks(input, from, 0, 0);
        }
        if digit(self.current_char) {
            let mut number: u64 = 0;
            proof {
                lemma_digits_end(input, start as nat);
                assert(input.subrange(start as int, start as int) =~= Seq::empty());
            }
            while self.position < self.length && digit(self.current_char)
                invariant
                    self.placed(),
                    self.input == old(self).input,
                    self.line == line,
                    start < self.length,
                    start <= self.position,
                    digits_end(input, self.position as nat) == digits_end(input, start as nat),
                    number == decimal_value(input.subrange(start as int, self.position as int)),
                decreases self.length - self.position,
            {
                let value = self.current_char as u32 - '0' as u32;
                proof {
                    let end = digits_end(input, start as nat);
                    let here = self.position as int;
                    lemma_digits_end(input, (here + 1) as nat);
                    let run = input.subrange(start as int, end as int);
                    lemma_prefix_value(run, (here + 1 - start) as nat);
                    assert(run.subrange(0, here + 1 - start) =~= input.subrange(
                        start as int,
                        here + 1,
                    ));
                    assert(input.subrange(start as int, here + 1).drop_last() =~= input.subrange(
                        start as int,
                        here,
                    ));
                    assert(literal_at(input, start as nat) <= u64::MAX);
                }
                number = number * 10 + value as u64;
                self.advance();
            }
            Ok(Token { kind: TokenKind::Number(number), line })
        } else if self.current_char == '\0' {
            Ok(Token { kind: TokenKind::EOF, line })
        } else {
            while self.position < self.length && word_char(self.current_char)
                invariant
                    self.placed(),
                    self.input == old(self).input,
                    self.line == line,
                    start <= self.position,
                    word_end(input, self.position as nat) == word_end(input, start as nat),
                decreases self.length - self.position,
            {
                self.advance();
            }
            let end = self.position;
            if end == start {
                return Err(Error::new(ErrorKind::UnexpectedChar(self.current_char), line));
            }
            let word = self.input.substring_char(start, end);
            Ok(Token { kind: classify(word), line })
        }
    }

    /// Reads the next token without passing it.
    pub fn peek_token(&self) -> (r: Result<Token, Error>)
        requires
            self.wf(),
            self.reads_on(),
        ensures
            match r {
                Ok(token) => self.step().outcome == Ok::<SpecToken, SpecError>(token@),
                Err(e) => self.step().outcome == Err::<SpecToken, SpecError>(e@),
            },
    {
        let mut lexer = *self;
        lexer.next_token()
    }
}


/// The tokens that lie ahead at some place in a text: those before the end,
/// and how they end, which is with the end of the input, on the line given,
/// or with what stops tokenizing.
pub struct TokenStream {
    pub tokens: Seq<SpecToken>,
    pub end: Result<nat, Stop>,
}

impl TokenStream {
    /// The token at the front: the first of those ahead, or the end of the
    /// input.
    pub open spec fn current(self) -> SpecToken {
        if self.tokens.len() > 0 {
            self.tokens[0]
        } else {
            match self.end {
                Ok(line) => SpecToken { kind: SpecTokenKind::EOF, line },
                Err(Stop::Failure(e)) => SpecToken { kind: SpecTokenKind::EOF, line: e.line },
                Err(Stop::Limit) => SpecToken { kind: SpecTokenKind::EOF, line: 0 },
            }
        }
    }

    /// The stream past its front token, or what stops tokenizing where the
    /// token after it should be. The end of the input is not passed.
    pub open spec fn advance(self) -> Result<TokenStream, Stop> {
        if self.tokens.len() >= 2 {
            Ok(TokenStream { tokens: self.tokens.drop_first(), end: self.end })
        } else if self.tokens.len() == 1 {
            match self.end {
                Ok(_) => Ok(TokenStream { tokens: Seq::empty(), end: self.end }),
                Err(stop) => Err(stop),
            }
        } else {
            Ok(self)
        }
    }

    /// The token after the front token, or what stops tokenizing there.
    pub open spec fn peek(self) -> Result<SpecToken, Stop> {
        match self.advance() {
            Ok(rest) => Ok(rest.current()),
            Err(stop) => Err(stop),
        }
    }

    /// Whether this stream has fewer tokens ahead than `other`.
    pub open spec fn shorter(self, other: TokenStream) -> bool {
        self.tokens.len() < other.tokens.len()
    }
}

/// The tokens of `input` from `position` on, which is on line `line`.
pub open spec fn scan(input: Seq<char>, position: nat, line: nat) -> TokenStream
    decreases input.len() - position,
{
    let step = lex(input, position, line);
    if overlong_at(input, position) {
        TokenStream { tokens: Seq::empty(), end: Err(Stop::Limit) }
    } else {
        match step.outcome {
            Err(e) => TokenStream { tokens: Seq::empty(), end: Err(Stop::Failure(e)) },
            Ok(token) => {
                if token.kind is EOF {
                    TokenStream { tokens: Seq::empty(), end: Ok(token.line) }
                } else {
                    proof {
                        lemma_lex_advances(input, position, line);
                    }
                    let rest = scan(input, step.position, step.line);
                    TokenStream { tokens: seq![token] + rest.tokens, end: rest.end }
                }
            },
        }
    }
}

/// The tokens of `input`.
pub open spec fn tokenize(input: Seq<char>) -> TokenStream {
    scan(input, 0, 1)
}

/// No token ahead is the end of the input, and there are no more tokens
/// ahead than characters.
pub proof fn lemma_scan(input: Seq<char>, position: nat, line: nat)
    ensures
        forall|i: int| 0 <= i < scan(input, position, line).tokens.len() ==> !(#[trigger] scan(
            input,
            position,
            line,
        ).tokens[i].kind is EOF),
        position <= input.len() ==> scan(input, position, line).tokens.len() <= input.len()
            - position,
        position > input.len() ==> scan(input, position, line).tokens.len() == 0,
    decreases input.len() - position,
{
    let step = lex(input, position, line);
    lemma_lex_advances(input, position, line);
    match step.outcome {
        Err(e) => {},
        Ok(token) => {
            if !(token.kind is EOF) {
                lemma_scan(input, step.position, step.line);
            }
        },
    }
}


/// Tokenizing is repeatable: two tokenizers that stand at the same place of
/// the same text read the same token and reach the same place, and the
/// tokens of a text are the same whenever it is tokenized.
pub proof fn lemma_repeatable(first: Lexer, second: Lexer)
    requires
        first.text() == second.text(),
        first.position() == second.position(),
        first.line() == second.line(),
    ensures
        first.step() == second.step(),
        scan(first.text(), first.position(), first.line()) == scan(
            second.text(),
            second.position(),
            second.line(),
        ),
        tokenize(first.text()) == tokenize(second.text()),
{
}


/// A text in which every number that tokenizing reaches is of at most 64
/// bits is tokenized without meeting a limit of the machine.
pub proof fn lemma_fitting_scan(input: Seq<char>, position: nat, line: nat)
    requires
        literals_fit(input, position),
    ensures
        scan(input, position, line).end != Err::<nat, Stop>(Stop::Limit),
    decreases input.len() - position,
{
    lemma_blanks(input, position, line, 0);
    lemma_lex_advances(input, position, line);
    let step = lex(input, position, line);
    if let Ok(token) = step.outcome {
        if !(token.kind is EOF) {
            lemma_fitting_scan(input, step.position, step.line);
        }
    }
}

/// Tests whether `input` can be tokenized on this machine.
#[verifier::loop_isolation(false)]
pub fn is_lexable(input: &str) -> (r: bool)
    ensures
        r == lexable(input@),
{
    let n = input.unicode_len();
    if n == usize::MAX {
        return false;
    }
    let ghost text = input@;
    let mut position: usize = 0;
    loop
        invariant
            n == text.len(),
            text == input@,
            position <= n,
            literals_fit(text, 0) == literals_fit(text, position as nat),
        decreases n - position,
    {
        let mut start: usize = position;
        while start < n && whitespace(input.get_char(start))
            invariant
                n == text.len(),
                text == input@,
                position <= start <= n,
                skip_blanks(text, start as nat, 0).0 == skip_blanks(text, position as nat, 0).0,
            decreases n - start,
        {
            proof {
                lemma_blanks(text, (start + 1) as nat, 0, 1);
            }
            start += 1;
        }
        assert(skip_blanks(text, position as nat, 0).0 == start);
        if start == n {
            return true;
        }
        let c = input.get_char(start);
        if digit(c) {
            let mut number: u64 = 0;
            let mut end: usize = start;
            proof {
                assert(text.subrange(start as int, start as int) =~= Seq::empty());
            }
            while end < n && digit(input.get_char(end))
                invariant
                    n == text.len(),
                    text == input@,
                    start <= end <= n,
                    digits_end(text, end as nat) == digits_end(text, start as nat),
                    number == decimal_value(text.subrange(start as int, end as int)),
                decreases n - end,
            {
                let value = (input.get_char(end) as u32 - '0' as u32) as u64;
                proof {
                    assert(text.subrange(start as int, end + 1).drop_last() =~= text.subrange(
                        start as int,
                        end as int,
                    ));
                }
                if number > (u64::MAX - value) / 10 {
                    proof {
                        let whole = digits_end(text, start as nat);
                        lemma_digits_end(text, (end + 1) as nat);
                        let run = text.subrange(start as int, whole as int);
                        lemma_prefix_value(run, (end + 1 - start) as nat);
                        assert(run.subrange(0, end + 1 - start) =~= text.subrange(
                            start as int,
                            end + 1,
                        ));
                        assert(literal_at(text, start as nat) > u64::MAX);
                    }
                    return false;
                }
                number = number * 10 + value;
                end += 1;
            }
            position = end;
        } else if c == '\0' {
            return true;
        } else {
            let mut end: usize = start;
            while end < n && word_char(input.get_char(end))
                invariant
                    n == text.len(),
                    text == input@,
                    start <= end <= n,
                    word_end(text, end as nat) == word_end(text, start as nat),
                decreases n - end,
            {
                end += 1;
            }
            if end == start {
                return true;
            }
            position = end;
        }
    }
}

} // verus!
