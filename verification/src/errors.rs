use crate::chars::push_char;
use crate::decimal::{decimal, push_decimal};
use crate::formatting::{line_spans, lines};
use vstd::prelude::*;
use vstd::string::StringExecFns;

verus! {

/// What went wrong in a compilation.
#[derive(Debug, Clone, PartialEq)]
pub enum ErrorKind {
    UnexpectedToken { expected: String, found: String },
    UnexpectedEOF,
    WrongfunctionCount { expected: u64, found: u64 },
    LonelyVariable,
    VariableAlreadyDeclared(String),
    PackedFunc(u32),
    UnexpectedChar(char),
    VariableNotDeclared(String),
    RandomChance,
    Tabbing,
    ExtraLine,
    ShortVarName(String),
    LongFuncName(String),
    InvalidAssignmentTarget,
    TypeError,
}

/// The mathematical value of an [`ErrorKind`]: names and spellings are
/// sequences of characters.
pub enum SpecErrorKind {
    UnexpectedToken { expected: Seq<char>, found: Seq<char> },
    UnexpectedEOF,
    WrongfunctionCount { expected: u64, found: u64 },
    LonelyVariable,
    VariableAlreadyDeclared(Seq<char>),
    PackedFunc(u32),
    UnexpectedChar(char),
    VariableNotDeclared(Seq<char>),
    RandomChance,
    Tabbing,
    ExtraLine,
    ShortVarName(Seq<char>),
    LongFuncName(Seq<char>),
    InvalidAssignmentTarget,
    TypeError,
}

impl View for ErrorKind {
    type V = SpecErrorKind;

    open spec fn view(&self) -> SpecErrorKind {
        match self {
            ErrorKind::UnexpectedToken { expected, found } => SpecErrorKind::UnexpectedToken {
                expected: expected@,
                found: found@,
            },
            ErrorKind::UnexpectedEOF => SpecErrorKind::UnexpectedEOF,
            ErrorKind::WrongfunctionCount { expected, found } => SpecErrorKind::WrongfunctionCount {
                expected: *expected,
                found: *found,
            },
            ErrorKind::LonelyVariable => SpecErrorKind::LonelyVariable,
            ErrorKind::VariableAlreadyDeclared(name) => SpecErrorKind::VariableAlreadyDeclared(
                name@,
            ),
            ErrorKind::PackedFunc(count) => SpecErrorKind::PackedFunc(*count),
            ErrorKind::UnexpectedChar(c) => SpecErrorKind::UnexpectedChar(*c),
            ErrorKind::VariableNotDeclared(name) => SpecErrorKind::VariableNotDeclared(name@),
            ErrorKind::RandomChance => SpecErrorKind::RandomChance,
            ErrorKind::Tabbing => SpecErrorKind::Tabbing,
            ErrorKind::ExtraLine => SpecErrorKind::ExtraLine,
            ErrorKind::ShortVarName(name) => SpecErrorKind::ShortVarName(name@),
            ErrorKind::LongFuncName(name) => SpecErrorKind::LongFuncName(name@),
            ErrorKind::InvalidAssignmentTarget => SpecErrorKind::InvalidAssignmentTarget,
            ErrorKind::TypeError => SpecErrorKind::TypeError,
        }
    }
}

/// A failed compilation: what went wrong, and the source line it is blamed on.
#[derive(Debug, Clone)]
pub struct Error {
    pub kind: ErrorKind,
    pub line: usize,
}

/// The mathematical value of an [`Error`].
pub struct SpecError {
    pub kind: SpecErrorKind,
    pub line: nat,
}

impl View for Error {
    type V = SpecError;

    open spec fn view(&self) -> SpecError {
        SpecError { kind: self.kind@, line: self.line as nat }
    }
}

/// The error of kind `kind` blamed on line `line`.
pub open spec fn fail(kind: SpecErrorKind, line: nat) -> SpecError {
    SpecError { kind, line }
}

impl Error {
    /// Builds the error of kind `kind` on line `line`.
    pub fn new(kind: ErrorKind, line: usize) -> (r: Self)
        ensures
            r.kind == kind,
            r.line == line,
            r@ == fail(kind@, line as nat),
    {
        Self { kind, line }
    }
}


/// The message that tells of an error of kind `kind`.
pub open spec fn speech(kind: SpecErrorKind) -> Seq<char> {
    match kind {
        SpecErrorKind::UnexpectedToken { expected, found } =>
            "You dumbass, you wrote "@
            + found
            + ", when I wanted "@
            + expected,
        SpecErrorKind::UnexpectedEOF => "Why the hell is there an EOF here"@,
        SpecErrorKind::WrongfunctionCount { expected, found } =>
            "Do you want your code to be unreadable? Why did you mark your function as number "@
            + decimal(found as nat)
            + " instead of "@
            + decimal(expected as nat)
            + "?"@,
        SpecErrorKind::LonelyVariable =>
            "Wow, you must really hate your program. Leaving your variables so lonely? Be better! Don't let a variable be alone or else you're a bad parent/programmer."@,
        SpecErrorKind::VariableAlreadyDeclared(name) =>
            "Hey man, I heard you like variables, but wow! You can't have two whole variables in your program named "@
            + name
            + ". Someone might get confused!"@,
        SpecErrorKind::PackedFunc(amount) =>
            "Woah woah woah. Slow your horses buddy! You can't have "@
            + decimal(amount as nat)
            + " whole variables in just one function. That's basically a party! Calm it down a bit!"@,
        SpecErrorKind::UnexpectedChar(c) =>
            "What the hell is a '"@
            + seq![c]
            + "', why would you type that. You must hate everyone huh."@,
        SpecErrorKind::VariableNotDeclared(name) =>
            "Buddy... this is meant to be a bad compiler... how are you making these kinds of mistakes... "@
            + name
            + " doesn't exist buddy..."@,
        SpecErrorKind::RandomChance =>
            "I, as the compiler, have decided that I hate you and your code. I shall now fail. Goodbye."@,
        SpecErrorKind::Tabbing =>
            "Why do you have spacing before your line? Stop wasting peoples time by making them have to move their eyes to the start of the actually useful stuff!"@,
        SpecErrorKind::ExtraLine =>
            "Why is one of your lines empty? Are you trying to waste space? Do better!"@,
        SpecErrorKind::ShortVarName(name) =>
            "My sir, thou shalt not name a vaariii-able with less than 7 characters! It is quite simply vulgur and unpleasant to the eyes! Please, m'lord, pick a better name for thy variable than "@
            + name
            + "!"@,
        SpecErrorKind::LongFuncName(name) => "\""@ + name + "\" br u nt skspr \u{1f494}"@,
        SpecErrorKind::InvalidAssignmentTarget => "Bro WHAT are you trying to assign to \u{1f494}"@,
        SpecErrorKind::TypeError =>
            "Dude how did you manage to get a fucking type error in this bullshit language"@,
    }
}

/// The line of the report that shows where the error is: the number of the
/// line and, if the text has a line of that number, the line itself; a reply
/// in place of the line otherwise. Lines are numbered from one.
pub open spec fn shown_line(line: nat, input: Seq<char>) -> Seq<char> {
    if 1 <= line <= lines(input).len() {
        decimal(line) + " | "@ + lines(input)[line - 1]
    } else {
        decimal(line) + " | LALALALALA I CAN'T HEAR YOU"@
    }
}

/// The report of an error of kind `kind` beside the line `line`: the
/// message and the line, each on a line of its own.
pub open spec fn report_text(kind: SpecErrorKind, line: Seq<char>) -> Seq<char> {
    "Error: "@ + speech(kind) + "\n"@ + line + "\n"@
}

impl ErrorKind {
    /// The message that tells of this error.
    pub fn to_speech(&self) -> (text: String)
        ensures
            text@ == speech(self@),
    {
        let mut text = String::new();
        match self {
            Self::UnexpectedToken { expected, found } => {
                text.append("You dumbass, you wrote ");
                text.append(found.as_str());
                text.append(", when I wanted ");
                text.append(expected.as_str());
            },
            Self::UnexpectedEOF => {
                text.append("Why the hell is there an EOF here");
            },
            Self::WrongfunctionCount { expected, found } => {
                text.append("Do you want your code to be unreadable? Why did you mark your function as number ");
                push_decimal(&mut text, *found as u64);
                text.append(" instead of ");
                push_decimal(&mut text, *expected as u64);
                text.append("?");
            },
            Self::LonelyVariable => {
                text.append("Wow, you must really hate your program. Leaving your variables so lonely? Be better! Don't let a variable be alone or else you're a bad parent/programmer.");
            },
            Self::VariableAlreadyDeclared(name) => {
                text.append("Hey man, I heard you like variables, but wow! You can't have two whole variables in your program named ");
                text.append(name.as_str());
                text.append(". Someone might get confused!");
            },
            Self::PackedFunc(amount) => {
                text.append("Woah woah woah. Slow your horses buddy! You can't have ");
                push_decimal(&mut text, *amount as u64);
                text.append(" whole variables in just one function. That's basically a party! Calm it down a bit!");
            },
            Self::UnexpectedChar(c) => {
                text.append("What the hell is a '");
                push_char(&mut text, *c);
                text.append("', why would you type that. You must hate everyone huh.");
            },
            Self::VariableNotDeclared(name) => {
                text.append("Buddy... this is meant to be a bad compiler... how are you making these kinds of mistakes... ");
                text.append(name.as_str());
                text.append(" doesn't exist buddy...");
            },
            Self::RandomChance => {
                text.append("I, as the compiler, have decided that I hate you and your code. I shall now fail. Goodbye.");
            },
            Self::Tabbing => {
                text.append("Why do you have spacing before your line? Stop wasting peoples time by making them have to move their eyes to the start of the actually useful stuff!");
            },
            Self::ExtraLine => {
                text.append("Why is one of your lines empty? Are you trying to waste space? Do better!");
            },
            Self::ShortVarName(name) => {
                text.append("My sir, thou shalt not name a vaariii-able with less than 7 characters! It is quite simply vulgur and unpleasant to the eyes! Please, m'lord, pick a better name for thy variable than ");
                text.append(name.as_str());
                text.append("!");
            },
            Self::LongFuncName(name) => {
                text.append("\"");
                text.append(name.as_str());
                text.append("\" br u nt skspr \u{1f494}");
            },
            Self::InvalidAssignmentTarget => {
                text.append("Bro WHAT are you trying to assign to \u{1f494}");
            },
            Self::TypeError => {
                text.append("Dude how did you manage to get a fucking type error in this bullshit language");
            },
        }
        assert(text@ =~= speech(self@));
        text
    }

    /// The report of this error beside the line `line`.
    pub fn report(&self, line: &str) -> (text: String)
        ensures
            text@ == report_text(self@, line@),
    {
        let mut text = String::from_str("Error: ");
        text.append(self.to_speech().as_str());
        text.append("\n");
        text.append(line);
        text.append("\n");
        assert(text@ =~= report_text(self@, line@));
        text
    }
}

impl Error {
    /// The report of this error on the text `input`: the message, and the
    /// line that the error is blamed on.
    pub fn report(&self, input: &str) -> (text: String)
        ensures
            text@ == report_text(self.kind@, shown_line(self.line as nat, input@)),
    {
        let spans = line_spans(input);
        let mut shown = String::new();
        push_decimal(&mut shown, self.line as u64);
        if 1 <= self.line && self.line <= spans.len() {
            let (start, end) = spans[self.line - 1];
            shown.append(" | ");
            shown.append(input.substring_char(start, end));
        } else {
            shown.append(" | LALALALALA I CAN'T HEAR YOU");
        }
        assert(shown@ =~= shown_line(self.line as nat, input@));
        self.kind.report(shown.as_str())
    }
}

} // verus!
