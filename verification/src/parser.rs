pub mod nodes;

use crate::errors::{fail, Error, ErrorKind, SpecErrorKind};
use crate::lexer::{
    kind_text, lemma_lex_advances, lemma_scan, lex, scan, tokenize, within_limits, Keyword, Lexer,
    SpecToken, SpecTokenKind, Stop, Token, TokenKind, TokenStream,
};
use crate::parser::nodes::{
    expression_models, function_models, item_models, param_models, Binop, Block, BlockItem,
    Declaration, Expression, ExpressionKind, FunctionDefinition, Program, SpecBlock,
    SpecBlockItem, SpecDeclaration, SpecExpression, SpecExpressionKind, SpecFunctionDefinition,
    SpecProgram, SpecStatement, SpecStatementKind, SpecType, Statement, StatementKind, Type,
};
use vstd::prelude::*;
use vstd::string::StringExecFns;

verus! {

/// The error of meeting the front token of `stream` where `expected` was
/// wanted.
pub open spec fn unexpected(stream: TokenStream, expected: Seq<char>) -> Stop {
    Stop::Failure(
        fail(
            SpecErrorKind::UnexpectedToken { expected, found: kind_text(stream.current().kind) },
            stream.current().line,
        ),
    )
}

/// Passing a token of kind `kind`: the stream past it, or the error of not
/// finding it at the front.
pub open spec fn expect(stream: TokenStream, kind: SpecTokenKind) -> Result<TokenStream, Stop> {
    if stream.current().kind == kind {
        stream.advance()
    } else if stream.current().kind is EOF {
        Err(Stop::Failure(fail(SpecErrorKind::UnexpectedEOF, stream.current().line)))
    } else {
        Err(unexpected(stream, kind_text(kind)))
    }
}

/// Passing the keyword `keyword`.
pub open spec fn expect_keyword(stream: TokenStream, keyword: Keyword) -> Result<
    TokenStream,
    Stop,
> {
    expect(stream, SpecTokenKind::Keyword(keyword))
}

/// Passing the keywords of `phrase` one after the other.
pub open spec fn expect_phrase(stream: TokenStream, phrase: Seq<Keyword>) -> Result<
    TokenStream,
    Stop,
>
    decreases phrase.len(),
{
    if phrase.len() == 0 {
        Ok(stream)
    } else {
        match expect_keyword(stream, phrase[0]) {
            Err(e) => Err(e),
            Ok(rest) => expect_phrase(rest, phrase.drop_first()),
        }
    }
}

/// A phrase leaves no more tokens than it found, and fewer if it has a word.
pub proof fn lemma_phrase_shortens(stream: TokenStream, phrase: Seq<Keyword>)
    ensures
        expect_phrase(stream, phrase) matches Ok(rest) ==> rest.tokens.len() + phrase.len()
            == stream.tokens.len(),
    decreases phrase.len(),
{
    if phrase.len() > 0 {
        match expect_keyword(stream, phrase[0]) {
            Err(e) => {},
            Ok(rest) => {
                lemma_phrase_shortens(rest, phrase.drop_first());
            },
        }
    }
}

/// Parsing of a type: `I32`, or a pointer to a type.
pub open spec fn parse_type(stream: TokenStream) -> Result<(SpecType, TokenStream), Stop>
    decreases stream.tokens.len(),
{
    match stream.current().kind {
        SpecTokenKind::Keyword(Keyword::I32) => match stream.advance() {
            Err(e) => Err(e),
            Ok(rest) => Ok((SpecType::I32, rest)),
        },
        SpecTokenKind::Keyword(Keyword::Pointing) => match expect_phrase(
            stream,
            seq![Keyword::Pointing, Keyword::At],
        ) {
            Err(e) => Err(e),
            Ok(rest) => {
                proof {
                    lemma_phrase_shortens(stream, seq![Keyword::Pointing, Keyword::At]);
                }
                match parse_type(rest) {
                    Err(e) => Err(e),
                    Ok((pointee, after)) => Ok((SpecType::Pointer(Box::new(pointee)), after)),
                }
            },
        },
        _ => Err(unexpected(stream, "a type"@)),
    }
}

/// Parsing of a parameter: its name, `is`, and its type.
pub open spec fn parse_param(stream: TokenStream) -> Result<
    ((Seq<char>, SpecType), TokenStream),
    Stop,
> {
    match stream.current().kind {
        SpecTokenKind::Identifier(name) => match stream.advance() {
            Err(e) => Err(e),
            Ok(s1) => match expect_keyword(s1, Keyword::Is) {
                Err(e) => Err(e),
                Ok(s2) => match parse_type(s2) {
                    Err(e) => Err(e),
                    Ok((ty, s3)) => Ok(((name, ty), s3)),
                },
            },
        },
        _ => Err(unexpected(stream, "an identifier"@)),
    }
}

/// How tightly the operator that starts with a token of kind `kind` binds:
/// the multiplicative operators tightest, then the additive ones, then
/// assignment; a token that starts no operator binds not at all.
pub open spec fn precedence(kind: SpecTokenKind) -> int {
    match kind {
        SpecTokenKind::Mul | SpecTokenKind::Div | SpecTokenKind::Mod => 50,
        SpecTokenKind::Plus | SpecTokenKind::Minus => 45,
        SpecTokenKind::Keyword(Keyword::Shall) => 1,
        _ => -1,
    }
}

/// The arithmetic operator that a token of kind `kind` is, if it is one.
pub open spec fn binary_operator(kind: SpecTokenKind) -> Option<Binop> {
    match kind {
        SpecTokenKind::Plus => Some(Binop::Add),
        SpecTokenKind::Minus => Some(Binop::Sub),
        SpecTokenKind::Mul => Some(Binop::Mul),
        SpecTokenKind::Div => Some(Binop::Div),
        SpecTokenKind::Mod => Some(Binop::Mod),
        _ => None,
    }
}

/// The expression of kind `kind` that starts on line `line`, as the parser
/// leaves it: with the placeholder type.
pub open spec fn untyped(kind: SpecExpressionKind, line: nat) -> SpecExpression {
    SpecExpression { kind, line_started: line, ty: SpecType::I32 }
}

/// Parsing of an expression whose operators all bind at least as tightly as
/// `min_prec`: a factor, then operators and their right sides as long as they
/// bind tightly enough.
///
/// In this and the following definitions, the tests that a part left fewer
/// tokens than it found are there for the definitions to be seen to end.
/// They always pass: every part that is parsed takes at least one token, as
/// `lemma_expression_shortens` and the lemmas beside it show.
pub open spec fn parse_expression(stream: TokenStream, min_prec: int) -> Result<
    (SpecExpression, TokenStream),
    Stop,
>
    decreases stream.tokens.len(), 4nat,
{
    match parse_factor(stream) {
        Err(e) => Err(e),
        Ok((left, rest)) => {
            if rest.shorter(stream) {
                climb(left, rest, min_prec)
            } else {
                Ok((left, rest))
            }
        },
    }
}

/// Parsing of what follows the expression `left`: operators that bind at
/// least as tightly as `min_prec`, each with its right side.
///
/// The right side of an arithmetic operator holds only operators that bind
/// more tightly, so that these operators group to the left. The right side
/// of an assignment, which is written `shall now be equal to`, holds
/// assignments too, so that assignment groups to the right.
pub open spec fn climb(left: SpecExpression, stream: TokenStream, min_prec: int) -> Result<
    (SpecExpression, TokenStream),
    Stop,
>
    decreases stream.tokens.len(), 3nat,
{
    let kind = stream.current().kind;
    let prec = precedence(kind);
    if prec < min_prec {
        Ok((left, stream))
    } else if kind == SpecTokenKind::Keyword(Keyword::Shall) {
        let phrase = seq![Keyword::Shall, Keyword::Now, Keyword::Be, Keyword::Equal, Keyword::To];
        match expect_phrase(stream, phrase) {
            Err(e) => Err(e),
            Ok(s1) => {
                proof {
                    lemma_phrase_shortens(stream, phrase);
                }
                match parse_expression(s1, prec) {
                    Err(e) => Err(e),
                    Ok((right, s2)) => {
                        let assigned = untyped(
                            SpecExpressionKind::Assign(Box::new(left), Box::new(right)),
                            left.line_started,
                        );
                        if s2.shorter(s1) {
                            climb(assigned, s2, min_prec)
                        } else {
                            Ok((assigned, s2))
                        }
                    },
                }
            },
        }
    } else {
        match binary_operator(kind) {
            None => Ok((left, stream)),
            Some(op) => match stream.advance() {
                Err(e) => Err(e),
                Ok(s1) => match parse_expression(s1, prec + 1) {
                    Err(e) => Err(e),
                    Ok((right, s2)) => {
                        let combined = untyped(
                            SpecExpressionKind::Binary(op, Box::new(left), Box::new(right)),
                            left.line_started,
                        );
                        if s2.shorter(s1) {
                            climb(combined, s2, min_prec)
                        } else {
                            Ok((combined, s2))
                        }
                    },
                },
            },
        }
    }
}

/// Parsing of a factor: an inner factor, then at most one of the two
/// postfix forms, the test `is zero` and the subscript.
pub open spec fn parse_factor(stream: TokenStream) -> Result<
    (SpecExpression, TokenStream),
    Stop,
>
    decreases stream.tokens.len(), 2nat,
{
    let line = stream.current().line;
    match parse_inner_factor(stream) {
        Err(e) => Err(e),
        Ok((inner, s1)) => {
            if !s1.shorter(stream) {
                Ok((inner, s1))
            } else {
                match s1.current().kind {
                    SpecTokenKind::Keyword(Keyword::Is) => match s1.peek() {
                        Err(e) => Err(e),
                        Ok(next) => {
                            if next.kind == SpecTokenKind::Keyword(Keyword::Zero) {
                                match expect_phrase(s1, seq![Keyword::Is, Keyword::Zero]) {
                                    Err(e) => Err(e),
                                    Ok(s2) => Ok(
                                        (
                                            untyped(
                                                SpecExpressionKind::IsZero(Box::new(inner)),
                                                line,
                                            ),
                                            s2,
                                        ),
                                    ),
                                }
                            } else {
                                Ok((inner, s1))
                            }
                        },
                    },
                    SpecTokenKind::Keyword(Keyword::ArrayStart) => match s1.advance() {
                        Err(e) => Err(e),
                        Ok(s2) => match parse_expression(s2, 0) {
                            Err(e) => Err(e),
                            Ok((index, s3)) => match expect(
                                s3,
                                SpecTokenKind::Keyword(Keyword::ArrayEnd),
                            ) {
                                Err(e) => Err(e),
                                Ok(s4) => Ok(
                                    (
                                        untyped(
                                            SpecExpressionKind::Subscript(
                                                Box::new(inner),
                                                Box::new(index),
                                            ),
                                            line,
                                        ),
                                        s4,
                                    ),
                                ),
                            },
                        },
                    },
                    _ => Ok((inner, s1)),
                }
            }
        },
    }
}

/// Parsing of an inner factor: a number, an expression between braces, a
/// variable, a call, an address or a dereference.
pub open spec fn parse_inner_factor(stream: TokenStream) -> Result<
    (SpecExpression, TokenStream),
    Stop,
>
    decreases stream.tokens.len(), 1nat,
{
    let line = stream.current().line;
    match stream.current().kind {
        SpecTokenKind::Number(n) => match stream.advance() {
            Err(e) => Err(e),
            Ok(s1) => Ok((untyped(SpecExpressionKind::Number(n), line), s1)),
        },
        SpecTokenKind::Identifier(name) => match stream.advance() {
            Err(e) => Err(e),
            Ok(s1) => Ok((untyped(SpecExpressionKind::Variable(name), line), s1)),
        },
        SpecTokenKind::LBrace => match stream.advance() {
            Err(e) => Err(e),
            Ok(s1) => match parse_expression(s1, 0) {
                Err(e) => Err(e),
                Ok((inner, s2)) => match expect(s2, SpecTokenKind::RBrace) {
                    Err(e) => Err(e),
                    Ok(s3) => Ok((inner, s3)),
                },
            },
        },
        SpecTokenKind::Keyword(Keyword::I) => parse_call(stream),
        SpecTokenKind::Keyword(Keyword::Get) => {
            let phrase = seq![Keyword::Get, Keyword::The, Keyword::Address, Keyword::Of];
            match expect_phrase(stream, phrase) {
                Err(e) => Err(e),
                Ok(s1) => {
                    proof {
                        lemma_phrase_shortens(stream, phrase);
                    }
                    match parse_inner_factor(s1) {
                        Err(e) => Err(e),
                        Ok((inner, s2)) => Ok(
                            (untyped(SpecExpressionKind::AddressOf(Box::new(inner)), line), s2),
                        ),
                    }
                },
            }
        },
        SpecTokenKind::Keyword(Keyword::What) => match stream.advance() {
            Err(e) => Err(e),
            Ok(s1) => match parse_inner_factor(s1) {
                Err(e) => Err(e),
                Ok((inner, s2)) => match expect_phrase(
                    s2,
                    seq![Keyword::Is, Keyword::Pointing, Keyword::At],
                ) {
                    Err(e) => Err(e),
                    Ok(s3) => Ok(
                        (untyped(SpecExpressionKind::Dereference(Box::new(inner)), line), s3),
                    ),
                },
            },
        },
        _ => Err(unexpected(stream, "a factor"@)),
    }
}

/// Parsing of a call: the phrase that introduces it, the name of the
/// function, the phrase that introduces its arguments, and the arguments
/// between braces.
pub open spec fn parse_call(stream: TokenStream) -> Result<
    (SpecExpression, TokenStream),
    Stop,
>
    decreases stream.tokens.len(), 0nat,
{
    let line = stream.current().line;
    let invoke = seq![
        Keyword::I,
        Keyword::Shall,
        Keyword::Invoke,
        Keyword::The,
        Keyword::Fn,
        Keyword::Named,
    ];
    let take = seq![
        Keyword::And,
        Keyword::It,
        Keyword::Shall,
        Keyword::Take,
        Keyword::The,
        Keyword::Parameters,
    ];
    match expect_phrase(stream, invoke) {
        Err(e) => Err(e),
        Ok(s1) => match s1.current().kind {
            SpecTokenKind::Identifier(name) => match s1.advance() {
                Err(e) => Err(e),
                Ok(s2) => match expect_phrase(s2, take) {
                    Err(e) => Err(e),
                    Ok(s3) => match expect(s3, SpecTokenKind::LBrace) {
                        Err(e) => Err(e),
                        Ok(s4) => {
                            proof {
                                lemma_phrase_shortens(stream, invoke);
                                lemma_phrase_shortens(s2, take);
                            }
                            match parse_arguments(s4) {
                                Err(e) => Err(e),
                                Ok((args, s5)) => match expect(s5, SpecTokenKind::RBrace) {
                                    Err(e) => Err(e),
                                    Ok(s6) => Ok(
                                        (
                                            untyped(
                                                SpecExpressionKind::FunctionCall(name, args),
                                                line,
                                            ),
                                            s6,
                                        ),
                                    ),
                                },
                            }
                        },
                    },
                },
            },
            _ => Err(unexpected(s1, "an identifier"@)),
        },
    }
}

/// Parsing of the arguments of a call, up to the closing brace: none, or
/// expressions with commas between them.
pub open spec fn parse_arguments(stream: TokenStream) -> Result<
    (Seq<SpecExpression>, TokenStream),
    Stop,
>
    decreases stream.tokens.len(), 5nat,
{
    if stream.current().kind is RBrace {
        Ok((Seq::empty(), stream))
    } else {
        match parse_expression(stream, 0) {
            Err(e) => Err(e),
            Ok((first, rest)) => {
                if rest.shorter(stream) {
                    more_arguments(seq![first], rest)
                } else {
                    Ok((seq![first], rest))
                }
            },
        }
    }
}

/// Parsing of the arguments that follow the arguments `args`: each after a
/// comma.
pub open spec fn more_arguments(args: Seq<SpecExpression>, stream: TokenStream) -> Result<
    (Seq<SpecExpression>, TokenStream),
    Stop,
>
    decreases stream.tokens.len(), 5nat,
{
    if stream.current().kind is Comma {
        match stream.advance() {
            Err(e) => Err(e),
            Ok(s1) => match parse_expression(s1, 0) {
                Err(e) => Err(e),
                Ok((arg, s2)) => {
                    if s2.shorter(s1) {
                        more_arguments(args.push(arg), s2)
                    } else {
                        Ok((args.push(arg), s2))
                    }
                },
            },
        }
    } else {
        Ok((args, stream))
    }
}

/// Every expression that is parsed takes at least one token.
pub proof fn lemma_expression_shortens(stream: TokenStream, min_prec: int)
    ensures
        parse_expression(stream, min_prec) matches Ok((_, rest)) ==> rest.shorter(stream),
    decreases stream.tokens.len(), 4nat,
{
    lemma_factor_shortens(stream);
    if let Ok((left, rest)) = parse_factor(stream) {
        lemma_climb_shortens(left, rest, min_prec);
    }
}

/// What follows an expression leaves no more tokens than it found.
pub proof fn lemma_climb_shortens(left: SpecExpression, stream: TokenStream, min_prec: int)
    ensures
        climb(left, stream, min_prec) matches Ok((_, rest)) ==> rest.tokens.len()
            <= stream.tokens.len(),
    decreases stream.tokens.len(), 3nat,
{
    let kind = stream.current().kind;
    let prec = precedence(kind);
    if prec < min_prec {
    } else if kind == SpecTokenKind::Keyword(Keyword::Shall) {
        let phrase = seq![Keyword::Shall, Keyword::Now, Keyword::Be, Keyword::Equal, Keyword::To];
        lemma_phrase_shortens(stream, phrase);
        if let Ok(s1) = expect_phrase(stream, phrase) {
            lemma_expression_shortens(s1, prec);
            if let Ok((right, s2)) = parse_expression(s1, prec) {
                let assigned = untyped(
                    SpecExpressionKind::Assign(Box::new(left), Box::new(right)),
                    left.line_started,
                );
                lemma_climb_shortens(assigned, s2, min_prec);
            }
        }
    } else if let Some(op) = binary_operator(kind) {
        if let Ok(s1) = stream.advance() {
            lemma_expression_shortens(s1, prec + 1);
            if let Ok((right, s2)) = parse_expression(s1, prec + 1) {
                let combined = untyped(
                    SpecExpressionKind::Binary(op, Box::new(left), Box::new(right)),
                    left.line_started,
                );
                lemma_climb_shortens(combined, s2, min_prec);
            }
        }
    }
}

/// Every factor that is parsed takes at least one token.
pub proof fn lemma_factor_shortens(stream: TokenStream)
    ensures
        parse_factor(stream) matches Ok((_, rest)) ==> rest.shorter(stream),
    decreases stream.tokens.len(), 2nat,
{
    lemma_inner_factor_shortens(stream);
    if let Ok((inner, s1)) = parse_inner_factor(stream) {
        match s1.current().kind {
            SpecTokenKind::Keyword(Keyword::Is) => {
                lemma_phrase_shortens(s1, seq![Keyword::Is, Keyword::Zero]);
            },
            SpecTokenKind::Keyword(Keyword::ArrayStart) => {
                if let Ok(s2) = s1.advance() {
                    lemma_expression_shortens(s2, 0);
                }
            },
            _ => {},
        }
    }
}

/// Every inner factor that is parsed takes at least one token.
pub proof fn lemma_inner_factor_shortens(stream: TokenStream)
    ensures
        parse_inner_factor(stream) matches Ok((_, rest)) ==> rest.shorter(stream),
    decreases stream.tokens.len(), 1nat,
{
    match stream.current().kind {
        SpecTokenKind::LBrace => {
            if let Ok(s1) = stream.advance() {
                lemma_expression_shortens(s1, 0);
            }
        },
        SpecTokenKind::Keyword(Keyword::I) => {
            lemma_call_shortens(stream);
        },
        SpecTokenKind::Keyword(Keyword::Get) => {
            let phrase = seq![Keyword::Get, Keyword::The, Keyword::Address, Keyword::Of];
            lemma_phrase_shortens(stream, phrase);
            if let Ok(s1) = expect_phrase(stream, phrase) {
                lemma_inner_factor_shortens(s1);
            }
        },
        SpecTokenKind::Keyword(Keyword::What) => {
            if let Ok(s1) = stream.advance() {
                lemma_inner_factor_shortens(s1);
                if let Ok((inner, s2)) = parse_inner_factor(s1) {
                    lemma_phrase_shortens(s2, seq![Keyword::Is, Keyword::Pointing, Keyword::At]);
                }
            }
        },
        _ => {},
    }
}

/// Every call that is parsed takes at least one token.
pub proof fn lemma_call_shortens(stream: TokenStream)
    ensures
        parse_call(stream) matches Ok((_, rest)) ==> rest.shorter(stream),
    decreases stream.tokens.len(), 0nat,
{
    let invoke = seq![
        Keyword::I,
        Keyword::Shall,
        Keyword::Invoke,
        Keyword::The,
        Keyword::Fn,
        Keyword::Named,
    ];
    let take = seq![
        Keyword::And,
        Keyword::It,
        Keyword::Shall,
        Keyword::Take,
        Keyword::The,
        Keyword::Parameters,
    ];
    lemma_phrase_shortens(stream, invoke);
    if let Ok(s1) = expect_phrase(stream, invoke) {
        if let Ok(s2) = s1.advance() {
            lemma_phrase_shortens(s2, take);
            if let Ok(s3) = expect_phrase(s2, take) {
                if let Ok(s4) = expect(s3, SpecTokenKind::LBrace) {
                    lemma_arguments_shorten(s4);
                }
            }
        }
    }
}

/// The arguments of a call leave no more tokens than they found.
pub proof fn lemma_arguments_shorten(stream: TokenStream)
    ensures
        parse_arguments(stream) matches Ok((_, rest)) ==> rest.tokens.len()
            <= stream.tokens.len(),
    decreases stream.tokens.len(), 5nat,
{
    if !(stream.current().kind is RBrace) {
        lemma_expression_shortens(stream, 0);
        if let Ok((first, rest)) = parse_expression(stream, 0) {
            lemma_more_arguments_shorten(seq![first], rest);
        }
    }
}

/// Further arguments leave no more tokens than they found.
pub proof fn lemma_more_arguments_shorten(args: Seq<SpecExpression>, stream: TokenStream)
    ensures
        more_arguments(args, stream) matches Ok((_, rest)) ==> rest.tokens.len()
            <= stream.tokens.len(),
    decreases stream.tokens.len(), 5nat,
{
    if stream.current().kind is Comma {
        if let Ok(s1) = stream.advance() {
            lemma_expression_shortens(s1, 0);
            if let Ok((arg, s2)) = parse_expression(s1, 0) {
                lemma_more_arguments_shorten(args.push(arg), s2);
            }
        }
    }
}

/// Every type that is parsed takes at least one token.
pub proof fn lemma_type_shortens(stream: TokenStream)
    ensures
        parse_type(stream) matches Ok((_, rest)) ==> rest.shorter(stream),
    decreases stream.tokens.len(),
{
    if stream.current().kind == SpecTokenKind::Keyword(Keyword::Pointing) {
        let phrase = seq![Keyword::Pointing, Keyword::At];
        lemma_phrase_shortens(stream, phrase);
        if let Ok(rest) = expect_phrase(stream, phrase) {
            lemma_type_shortens(rest);
        }
    }
}

/// Parsing of a declaration: the phrase that introduces it, the name, `is`
/// and the type, `shall be equal to` and the value, and the terminator.
pub open spec fn parse_declaration(stream: TokenStream) -> Result<
    (SpecDeclaration, TokenStream),
    Stop,
> {
    let line = stream.current().line;
    let declaring = seq![
        Keyword::I,
        Keyword::Am,
        Keyword::Declaring,
        Keyword::A,
        Keyword::Variable,
        Keyword::Named,
    ];
    match expect_phrase(stream, declaring) {
        Err(e) => Err(e),
        Ok(s1) => match s1.current().kind {
            SpecTokenKind::Identifier(name) => match s1.advance() {
                Err(e) => Err(e),
                Ok(s2) => match expect_keyword(s2, Keyword::Is) {
                    Err(e) => Err(e),
                    Ok(s3) => match parse_type(s3) {
                        Err(e) => Err(e),
                        Ok((ty, s4)) => match expect_phrase(
                            s4,
                            seq![Keyword::Shall, Keyword::Be, Keyword::Equal, Keyword::To],
                        ) {
                            Err(e) => Err(e),
                            Ok(s5) => match parse_expression(s5, 0) {
                                Err(e) => Err(e),
                                Ok((value, s6)) => match expect(
                                    s6,
                                    SpecTokenKind::Keyword(Keyword::Period),
                                ) {
                                    Err(e) => Err(e),
                                    Ok(s7) => Ok(
                                        (
                                            SpecDeclaration {
                                                name,
                                                ty,
                                                value,
                                                line_started: line,
                                            },
                                            s7,
                                        ),
                                    ),
                                },
                            },
                        },
                    },
                },
            },
            _ => Err(unexpected(s1, "an identifier"@)),
        },
    }
}

/// The statement of kind `kind` that starts on line `line`.
pub open spec fn statement(kind: SpecStatementKind, line: nat) -> SpecStatement {
    SpecStatement { kind, line_started: line }
}

/// Parsing of a statement: a return, a conditional, a loop, a block, or an
/// expression; all but the block end with the terminator, the conditional
/// and the loop with that of their last statement.
pub open spec fn parse_statement(stream: TokenStream) -> Result<
    (SpecStatement, TokenStream),
    Stop,
>
    decreases stream.tokens.len(), 3nat,
{
    let line = stream.current().line;
    match stream.current().kind {
        SpecTokenKind::Keyword(Keyword::Return) => match stream.advance() {
            Err(e) => Err(e),
            Ok(s1) => match parse_expression(s1, 0) {
                Err(e) => Err(e),
                Ok((value, s2)) => match expect(s2, SpecTokenKind::Keyword(Keyword::Period)) {
                    Err(e) => Err(e),
                    Ok(s3) => Ok((statement(SpecStatementKind::Return(value), line), s3)),
                },
            },
        },
        SpecTokenKind::Keyword(Keyword::In) => match expect_phrase(
            stream,
            seq![Keyword::In, Keyword::The, Keyword::Case, Keyword::That],
        ) {
            Err(e) => Err(e),
            Ok(s1) => match parse_expression(s1, 0) {
                Err(e) => Err(e),
                Ok((condition, s2)) => match expect_keyword(s2, Keyword::Do) {
                    Err(e) => Err(e),
                    Ok(s3) => {
                        proof {
                            lemma_phrase_shortens(
                                stream,
                                seq![Keyword::In, Keyword::The, Keyword::Case, Keyword::That],
                            );
                            lemma_expression_shortens(s1, 0);
                        }
                        {
                            match parse_statement(s3) {
                                Err(e) => Err(e),
                                Ok((then_branch, s4)) => {
                                    if s4.current().kind == SpecTokenKind::Keyword(Keyword::Or)
                                        && s4.shorter(s3) {
                                        match expect_phrase(s4, seq![Keyword::Or, Keyword::Do]) {
                                            Err(e) => Err(e),
                                            Ok(s5) => {
                                                proof {
                                                    lemma_phrase_shortens(
                                                        s4,
                                                        seq![Keyword::Or, Keyword::Do],
                                                    );
                                                }
                                                match parse_statement(s5) {
                                                    Err(e) => Err(e),
                                                    Ok((else_branch, s6)) => Ok(
                                                        (
                                                            statement(
                                                                SpecStatementKind::If(
                                                                    condition,
                                                                    Box::new(then_branch),
                                                                    Some(Box::new(else_branch)),
                                                                ),
                                                                line,
                                                            ),
                                                            s6,
                                                        ),
                                                    ),
                                                }
                                            },
                                        }
                                    } else {
                                        Ok(
                                            (
                                                statement(
                                                    SpecStatementKind::If(
                                                        condition,
                                                        Box::new(then_branch),
                                                        None,
                                                    ),
                                                    line,
                                                ),
                                                s4,
                                            ),
                                        )
                                    }
                                },
                            }
                        }
                    },
                },
            },
        },
        SpecTokenKind::Keyword(Keyword::During) => match expect_phrase(
            stream,
            seq![Keyword::During, Keyword::The, Keyword::Period, Keyword::That],
        ) {
            Err(e) => Err(e),
            Ok(s1) => match parse_expression(s1, 0) {
                Err(e) => Err(e),
                Ok((condition, s2)) => match expect_phrase(
                    s2,
                    seq![Keyword::Is, Keyword::Not, Keyword::Zero, Keyword::Do],
                ) {
                    Err(e) => Err(e),
                    Ok(s3) => {
                        proof {
                            lemma_phrase_shortens(
                                stream,
                                seq![
                                    Keyword::During,
                                    Keyword::The,
                                    Keyword::Period,
                                    Keyword::That,
                                ],
                            );
                            lemma_expression_shortens(s1, 0);
                            lemma_phrase_shortens(
                                s2,
                                seq![Keyword::Is, Keyword::Not, Keyword::Zero, Keyword::Do],
                            );
                        }
                        {
                            match parse_statement(s3) {
                                Err(e) => Err(e),
                                Ok((body, s4)) => Ok(
                                    (
                                        statement(
                                            SpecStatementKind::While(condition, Box::new(body)),
                                            line,
                                        ),
                                        s4,
                                    ),
                                ),
                            }
                        }
                    },
                },
            },
        },
        SpecTokenKind::LParen => match parse_block(stream) {
            Err(e) => Err(e),
            Ok((block, s1)) => Ok((statement(SpecStatementKind::Block(block), line), s1)),
        },
        _ => match parse_expression(stream, 0) {
            Err(e) => Err(e),
            Ok((value, s1)) => match expect(s1, SpecTokenKind::Keyword(Keyword::Period)) {
                Err(e) => Err(e),
                Ok(s2) => Ok((statement(SpecStatementKind::Expression(value), line), s2)),
            },
        },
    }
}

/// Parsing of a block: its items between the block delimiters.
pub open spec fn parse_block(stream: TokenStream) -> Result<(SpecBlock, TokenStream), Stop>
    decreases stream.tokens.len(), 2nat,
{
    let line = stream.current().line;
    match expect(stream, SpecTokenKind::LParen) {
        Err(e) => Err(e),
        Ok(s1) => match parse_items(Seq::empty(), s1) {
            Err(e) => Err(e),
            Ok((items, s2)) => match expect(s2, SpecTokenKind::RParen) {
                Err(e) => Err(e),
                Ok(s3) => Ok((SpecBlock { items, line_started: line }, s3)),
            },
        },
    }
}

/// Parsing of the items of a block that follow the items `items`, up to the
/// closing delimiter.
pub open spec fn parse_items(items: Seq<SpecBlockItem>, stream: TokenStream) -> Result<
    (Seq<SpecBlockItem>, TokenStream),
    Stop,
>
    decreases stream.tokens.len(), 5nat,
{
    if stream.current().kind is RParen {
        Ok((items, stream))
    } else {
        match parse_block_item(stream) {
            Err(e) => Err(e),
            Ok((item, rest)) => {
                if rest.shorter(stream) {
                    parse_items(items.push(item), rest)
                } else {
                    Ok((items.push(item), rest))
                }
            },
        }
    }
}

/// Parsing of a block item: a declaration where the two keywords that
/// introduce one lie ahead, a statement otherwise.
pub open spec fn parse_block_item(stream: TokenStream) -> Result<
    (SpecBlockItem, TokenStream),
    Stop,
>
    decreases stream.tokens.len(), 4nat,
{
    if stream.current().kind == SpecTokenKind::Keyword(Keyword::I) {
        match stream.peek() {
            Err(e) => Err(e),
            Ok(next) => {
                if next.kind == SpecTokenKind::Keyword(Keyword::Am) {
                    match parse_declaration(stream) {
                        Err(e) => Err(e),
                        Ok((declaration, rest)) => Ok(
                            (SpecBlockItem::Declaration(declaration), rest),
                        ),
                    }
                } else {
                    match parse_statement(stream) {
                        Err(e) => Err(e),
                        Ok((s, rest)) => Ok((SpecBlockItem::Statement(s), rest)),
                    }
                }
            },
        }
    } else {
        match parse_statement(stream) {
            Err(e) => Err(e),
            Ok((s, rest)) => Ok((SpecBlockItem::Statement(s), rest)),
        }
    }
}

/// Parsing of the parameters of a function, up to the closing bracket: none,
/// or parameters with commas between them.
pub open spec fn parse_params(stream: TokenStream) -> Result<
    (Seq<(Seq<char>, SpecType)>, TokenStream),
    Stop,
> {
    if stream.current().kind is RBracket {
        Ok((Seq::empty(), stream))
    } else {
        match parse_param(stream) {
            Err(e) => Err(e),
            Ok((first, rest)) => more_params(seq![first], rest),
        }
    }
}

/// Parsing of the parameters that follow the parameters `params`: each after
/// a comma.
pub open spec fn more_params(params: Seq<(Seq<char>, SpecType)>, stream: TokenStream) -> Result<
    (Seq<(Seq<char>, SpecType)>, TokenStream),
    Stop,
>
    decreases stream.tokens.len(),
{
    if stream.current().kind is Comma {
        match stream.advance() {
            Err(e) => Err(e),
            Ok(s1) => match parse_param(s1) {
                Err(e) => Err(e),
                Ok((param, s2)) => {
                    if s2.shorter(s1) {
                        more_params(params.push(param), s2)
                    } else {
                        Ok((params.push(param), s2))
                    }
                },
            },
        }
    } else {
        Ok((params, stream))
    }
}

/// Parsing of a function definition that must carry the number `ordinal`:
/// `the function numbered`, the number, `is` and the return type,
/// `shall be equal to` and the name, the parameters between brackets, and
/// then a semicolon, for a function without a body, or the block that is its
/// body.
///
/// Another number than `ordinal` is an error on the line of the token after
/// the number.
pub open spec fn parse_function_definition(stream: TokenStream, ordinal: nat) -> Result<
    (SpecFunctionDefinition, TokenStream),
    Stop,
> {
    let line = stream.current().line;
    match expect_phrase(stream, seq![Keyword::The, Keyword::Fn, Keyword::Numbered]) {
        Err(e) => Err(e),
        Ok(s1) => match s1.current().kind {
            SpecTokenKind::Number(number) => match s1.advance() {
                Err(e) => Err(e),
                Ok(s2) => {
                    if number != ordinal {
                        Err(
                            Stop::Failure(
                                fail(
                                    SpecErrorKind::WrongfunctionCount {
                                        expected: ordinal as u64,
                                        found: number,
                                    },
                                    s2.current().line,
                                ),
                            ),
                        )
                    } else {
                        match expect_keyword(s2, Keyword::Is) {
                            Err(e) => Err(e),
                            Ok(s3) => match parse_type(s3) {
                                Err(e) => Err(e),
                                Ok((return_type, s4)) => match expect_phrase(
                                    s4,
                                    seq![Keyword::Shall, Keyword::Be, Keyword::Equal, Keyword::To],
                                ) {
                                    Err(e) => Err(e),
                                    Ok(s5) => parse_signature(s5, return_type, line),
                                },
                            },
                        }
                    }
                },
            },
            _ => Err(unexpected(s1, "a number"@)),
        },
    }
}

/// Parsing of the rest of a function definition, from its name on.
pub open spec fn parse_signature(stream: TokenStream, return_type: SpecType, line: nat) -> Result<
    (SpecFunctionDefinition, TokenStream),
    Stop,
> {
    match stream.current().kind {
        SpecTokenKind::Identifier(name) => match stream.advance() {
            Err(e) => Err(e),
            Ok(s1) => match expect(s1, SpecTokenKind::LBracket) {
                Err(e) => Err(e),
                Ok(s2) => match parse_params(s2) {
                    Err(e) => Err(e),
                    Ok((params, s3)) => match expect(s3, SpecTokenKind::RBracket) {
                        Err(e) => Err(e),
                        Ok(s4) => {
                            if s4.current().kind is Semicolon {
                                match s4.advance() {
                                    Err(e) => Err(e),
                                    Ok(s5) => Ok(
                                        (
                                            SpecFunctionDefinition {
                                                name,
                                                params,
                                                return_type,
                                                body: None,
                                                line_started: line,
                                            },
                                            s5,
                                        ),
                                    ),
                                }
                            } else {
                                match parse_block(s4) {
                                    Err(e) => Err(e),
                                    Ok((body, s5)) => Ok(
                                        (
                                            SpecFunctionDefinition {
                                                name,
                                                params,
                                                return_type,
                                                body: Some(body),
                                                line_started: line,
                                            },
                                            s5,
                                        ),
                                    ),
                                }
                            }
                        },
                    },
                },
            },
        },
        _ => Err(unexpected(stream, "an identifier"@)),
    }
}

/// Parsing of the function definitions that follow the definitions
/// `functions`, up to the end of the input: the next one must carry the
/// number `ordinal`, the one after it the next number, and so on.
pub open spec fn parse_definitions(
    functions: Seq<SpecFunctionDefinition>,
    stream: TokenStream,
    ordinal: nat,
) -> Result<Seq<SpecFunctionDefinition>, Stop>
    decreases stream.tokens.len(),
{
    if stream.current().kind is EOF {
        Ok(functions)
    } else {
        match parse_function_definition(stream, ordinal) {
            Err(e) => Err(e),
            Ok((function, rest)) => {
                if rest.shorter(stream) {
                    parse_definitions(functions.push(function), rest, ordinal + 1)
                } else {
                    Ok(functions.push(function))
                }
            },
        }
    }
}

/// Parsing of a program from `stream`, its first function to carry the
/// number `ordinal`.
pub open spec fn parse_program(stream: TokenStream, ordinal: nat) -> Result<
    SpecProgram,
    Stop,
> {
    match parse_definitions(Seq::empty(), stream, ordinal) {
        Err(e) => Err(e),
        Ok(functions) => Ok(SpecProgram { functions }),
    }
}

/// Parsing of the text `input`: the program it writes, or what stops the
/// reading of it first, be it in a token or in the grammar. A text of as
/// many characters as the largest `usize` is beyond the machine.
pub open spec fn parse(input: Seq<char>) -> Result<SpecProgram, Stop> {
    let stream = tokenize(input);
    if input.len() >= usize::MAX {
        Err(Stop::Limit)
    } else {
        match stream.end {
            Err(stop) if stream.tokens.len() == 0 => Err(stop),
            _ => parse_program(stream, 1),
        }
    }
}

/// Every declaration that is parsed takes at least one token.
pub proof fn lemma_declaration_shortens(stream: TokenStream)
    ensures
        parse_declaration(stream) matches Ok((_, rest)) ==> rest.shorter(stream),
{
    let declaring = seq![
        Keyword::I,
        Keyword::Am,
        Keyword::Declaring,
        Keyword::A,
        Keyword::Variable,
        Keyword::Named,
    ];
    let equal = seq![Keyword::Shall, Keyword::Be, Keyword::Equal, Keyword::To];
    lemma_phrase_shortens(stream, declaring);
    if let Ok(s1) = expect_phrase(stream, declaring) {
        if let Ok(s2) = s1.advance() {
            if let Ok(s3) = expect_keyword(s2, Keyword::Is) {
                lemma_type_shortens(s3);
                if let Ok((ty, s4)) = parse_type(s3) {
                    lemma_phrase_shortens(s4, equal);
                    if let Ok(s5) = expect_phrase(s4, equal) {
                        lemma_expression_shortens(s5, 0);
                    }
                }
            }
        }
    }
}

/// Every statement that is parsed takes at least one token.
pub proof fn lemma_statement_shortens(stream: TokenStream)
    ensures
        parse_statement(stream) matches Ok((_, rest)) ==> rest.shorter(stream),
    decreases stream.tokens.len(), 3nat,
{
    match stream.current().kind {
        SpecTokenKind::Keyword(Keyword::Return) => {
            if let Ok(s1) = stream.advance() {
                lemma_expression_shortens(s1, 0);
            }
        },
        SpecTokenKind::Keyword(Keyword::In) => {
            let case = seq![Keyword::In, Keyword::The, Keyword::Case, Keyword::That];
            lemma_phrase_shortens(stream, case);
            if let Ok(s1) = expect_phrase(stream, case) {
                lemma_expression_shortens(s1, 0);
                if let Ok((condition, s2)) = parse_expression(s1, 0) {
                    if let Ok(s3) = expect_keyword(s2, Keyword::Do) {
                        lemma_statement_shortens(s3);
                        if let Ok((then_branch, s4)) = parse_statement(s3) {
                            let otherwise = seq![Keyword::Or, Keyword::Do];
                            lemma_phrase_shortens(s4, otherwise);
                            if let Ok(s5) = expect_phrase(s4, otherwise) {
                                if s4.shorter(s3) {
                                    lemma_statement_shortens(s5);
                                }
                            }
                        }
                    }
                }
            }
        },
        SpecTokenKind::Keyword(Keyword::During) => {
            let during = seq![Keyword::During, Keyword::The, Keyword::Period, Keyword::That];
            let holds = seq![Keyword::Is, Keyword::Not, Keyword::Zero, Keyword::Do];
            lemma_phrase_shortens(stream, during);
            if let Ok(s1) = expect_phrase(stream, during) {
                lemma_expression_shortens(s1, 0);
                if let Ok((condition, s2)) = parse_expression(s1, 0) {
                    lemma_phrase_shortens(s2, holds);
                    if let Ok(s3) = expect_phrase(s2, holds) {
                        lemma_statement_shortens(s3);
                    }
                }
            }
        },
        SpecTokenKind::LParen => {
            lemma_block_shortens(stream);
        },
        _ => {
            lemma_expression_shortens(stream, 0);
        },
    }
}

/// Every block that is parsed takes at least one token.
pub proof fn lemma_block_shortens(stream: TokenStream)
    ensures
        parse_block(stream) matches Ok((_, rest)) ==> rest.shorter(stream),
    decreases stream.tokens.len(), 2nat,
{
    if let Ok(s1) = expect(stream, SpecTokenKind::LParen) {
        lemma_items_shorten(Seq::empty(), s1);
    }
}

/// The items of a block leave no more tokens than they found.
pub proof fn lemma_items_shorten(items: Seq<SpecBlockItem>, stream: TokenStream)
    ensures
        parse_items(items, stream) matches Ok((_, rest)) ==> rest.tokens.len()
            <= stream.tokens.len(),
    decreases stream.tokens.len(), 5nat,
{
    if !(stream.current().kind is RParen) {
        lemma_block_item_shortens(stream);
        if let Ok((item, rest)) = parse_block_item(stream) {
            lemma_items_shorten(items.push(item), rest);
        }
    }
}

/// Every block item that is parsed takes at least one token.
pub proof fn lemma_block_item_shortens(stream: TokenStream)
    ensures
        parse_block_item(stream) matches Ok((_, rest)) ==> rest.shorter(stream),
    decreases stream.tokens.len(), 4nat,
{
    lemma_declaration_shortens(stream);
    lemma_statement_shortens(stream);
}

/// Every parameter that is parsed takes at least one token.
pub proof fn lemma_param_shortens(stream: TokenStream)
    ensures
        parse_param(stream) matches Ok((_, rest)) ==> rest.shorter(stream),
{
    if let Ok(s1) = stream.advance() {
        if let Ok(s2) = expect_keyword(s1, Keyword::Is) {
            lemma_type_shortens(s2);
        }
    }
}

/// Further parameters leave no more tokens than they found.
pub proof fn lemma_more_params_shorten(params: Seq<(Seq<char>, SpecType)>, stream: TokenStream)
    ensures
        more_params(params, stream) matches Ok((_, rest)) ==> rest.tokens.len()
            <= stream.tokens.len(),
    decreases stream.tokens.len(),
{
    if stream.current().kind is Comma {
        if let Ok(s1) = stream.advance() {
            lemma_param_shortens(s1);
            if let Ok((param, s2)) = parse_param(s1) {
                lemma_more_params_shorten(params.push(param), s2);
            }
        }
    }
}

/// Every function definition that is parsed takes at least one token.
pub proof fn lemma_definition_shortens(stream: TokenStream, ordinal: nat)
    ensures
        parse_function_definition(stream, ordinal) matches Ok((_, rest)) ==> rest.shorter(stream),
{
    let numbered = seq![Keyword::The, Keyword::Fn, Keyword::Numbered];
    let equal = seq![Keyword::Shall, Keyword::Be, Keyword::Equal, Keyword::To];
    lemma_phrase_shortens(stream, numbered);
    if let Ok(s1) = expect_phrase(stream, numbered) {
        if let Ok(s2) = s1.advance() {
            if let Ok(s3) = expect_keyword(s2, Keyword::Is) {
                lemma_type_shortens(s3);
                if let Ok((return_type, s4)) = parse_type(s3) {
                    lemma_phrase_shortens(s4, equal);
                    if let Ok(s5) = expect_phrase(s4, equal) {
                        if let Ok(s6) = s5.advance() {
                            if let Ok(s7) = expect(s6, SpecTokenKind::LBracket) {
                                lemma_param_shortens(s7);
                                if let Ok((first, s8)) = parse_param(s7) {
                                    lemma_more_params_shorten(seq![first], s8);
                                }
                                if let Ok((params, s9)) = parse_params(s7) {
                                    if let Ok(s10) = expect(s9, SpecTokenKind::RBracket) {
                                        lemma_block_shortens(s10);
                                    }
                                }
                            }
                        }
                    }
                }
            }
        }
    }
}

/// Whether `outcome`, which comes of parsing from `stream`, stays within
/// the limits of the machine and leaves the stream to end as it did.
pub open spec fn keeps<T>(outcome: Result<(T, TokenStream), Stop>, stream: TokenStream) -> bool {
    within_limits(outcome) && (outcome matches Ok((_, rest)) ==> rest.end == stream.end)
}

/// A phrase meets no limit of the machine that the stream does not end in.
pub proof fn lemma_phrase_within(stream: TokenStream, phrase: Seq<Keyword>)
    requires
        within_limits(stream.end),
    ensures
        within_limits(expect_phrase(stream, phrase)),
        expect_phrase(stream, phrase) matches Ok(rest) ==> rest.end == stream.end,
    decreases phrase.len(),
{
    if phrase.len() > 0 {
        if let Ok(rest) = expect_keyword(stream, phrase[0]) {
            lemma_phrase_within(rest, phrase.drop_first());
        }
    }
}

/// A type meets no limit of the machine that the stream does not end in.
pub proof fn lemma_type_within(stream: TokenStream)
    requires
        within_limits(stream.end),
    ensures
        keeps(parse_type(stream), stream),
    decreases stream.tokens.len(),
{
    if stream.current().kind == SpecTokenKind::Keyword(Keyword::Pointing) {
        let phrase = seq![Keyword::Pointing, Keyword::At];
        lemma_phrase_within(stream, phrase);
        lemma_phrase_shortens(stream, phrase);
        if let Ok(rest) = expect_phrase(stream, phrase) {
            lemma_type_within(rest);
        }
    }
}

/// A parameter meets no limit of the machine that the stream does not end
/// in.
pub proof fn lemma_param_within(stream: TokenStream)
    requires
        within_limits(stream.end),
    ensures
        keeps(parse_param(stream), stream),
{
    if let Ok(s1) = stream.advance() {
        if let Ok(s2) = expect_keyword(s1, Keyword::Is) {
            lemma_type_within(s2);
        }
    }
}

/// An expression meets no limit of the machine that the stream does not end
/// in.
pub proof fn lemma_expression_within(stream: TokenStream, min_prec: int)
    requires
        within_limits(stream.end),
    ensures
        keeps(parse_expression(stream, min_prec), stream),
    decreases stream.tokens.len(), 4nat,
{
    lemma_factor_within(stream);
    if let Ok((left, rest)) = parse_factor(stream) {
        if rest.shorter(stream) {
            lemma_climb_within(left, rest, min_prec);
        }
    }
}

/// What follows an expression meets no limit of the machine that the stream
/// does not end in.
pub proof fn lemma_climb_within(left: SpecExpression, stream: TokenStream, min_prec: int)
    requires
        within_limits(stream.end),
    ensures
        keeps(climb(left, stream, min_prec), stream),
    decreases stream.tokens.len(), 3nat,
{
    let kind = stream.current().kind;
    let prec = precedence(kind);
    if prec < min_prec {
    } else if kind == SpecTokenKind::Keyword(Keyword::Shall) {
        let phrase = seq![Keyword::Shall, Keyword::Now, Keyword::Be, Keyword::Equal, Keyword::To];
        lemma_phrase_shortens(stream, phrase);
        lemma_phrase_within(stream, phrase);
        if let Ok(s1) = expect_phrase(stream, phrase) {
            lemma_expression_within(s1, prec);
            if let Ok((right, s2)) = parse_expression(s1, prec) {
                let assigned = untyped(
                    SpecExpressionKind::Assign(Box::new(left), Box::new(right)),
                    left.line_started,
                );
                if s2.shorter(s1) {
                    lemma_climb_within(assigned, s2, min_prec);
                }
            }
        }
    } else if let Some(op) = binary_operator(kind) {
        if let Ok(s1) = stream.advance() {
            lemma_expression_within(s1, prec + 1);
            if let Ok((right, s2)) = parse_expression(s1, prec + 1) {
                let combined = untyped(
                    SpecExpressionKind::Binary(op, Box::new(left), Box::new(right)),
                    left.line_started,
                );
                if s2.shorter(s1) {
                    lemma_climb_within(combined, s2, min_prec);
                }
            }
        }
    }
}

/// A factor meets no limit of the machine that the stream does not end in.
pub proof fn lemma_factor_within(stream: TokenStream)
    requires
        within_limits(stream.end),
    ensures
        keeps(parse_factor(stream), stream),
    decreases stream.tokens.len(), 2nat,
{
    lemma_inner_factor_within(stream);
    if let Ok((inner, s1)) = parse_inner_factor(stream) {
        if s1.shorter(stream) {
            match s1.current().kind {
                SpecTokenKind::Keyword(Keyword::Is) => {
                    lemma_phrase_within(s1, seq![Keyword::Is, Keyword::Zero]);
                },
                SpecTokenKind::Keyword(Keyword::ArrayStart) => {
                    if let Ok(s2) = s1.advance() {
                        lemma_expression_within(s2, 0);
                    }
                },
                _ => {},
            }
        }
    }
}

/// An inner factor meets no limit of the machine that the stream does not
/// end in.
pub proof fn lemma_inner_factor_within(stream: TokenStream)
    requires
        within_limits(stream.end),
    ensures
        keeps(parse_inner_factor(stream), stream),
    decreases stream.tokens.len(), 1nat,
{
    match stream.current().kind {
        SpecTokenKind::LBrace => {
            if let Ok(s1) = stream.advance() {
                lemma_expression_within(s1, 0);
            }
        },
        SpecTokenKind::Keyword(Keyword::I) => {
            lemma_call_within(stream);
        },
        SpecTokenKind::Keyword(Keyword::Get) => {
            let phrase = seq![Keyword::Get, Keyword::The, Keyword::Address, Keyword::Of];
            lemma_phrase_shortens(stream, phrase);
            lemma_phrase_within(stream, phrase);
            if let Ok(s1) = expect_phrase(stream, phrase) {
                lemma_inner_factor_within(s1);
            }
        },
        SpecTokenKind::Keyword(Keyword::What) => {
            if let Ok(s1) = stream.advance() {
                lemma_inner_factor_within(s1);
                if let Ok((inner, s2)) = parse_inner_factor(s1) {
                    lemma_phrase_within(s2, seq![Keyword::Is, Keyword::Pointing, Keyword::At]);
                }
            }
        },
        _ => {},
    }
}

/// A call meets no limit of the machine that the stream does not end in.
pub proof fn lemma_call_within(stream: TokenStream)
    requires
        within_limits(stream.end),
    ensures
        keeps(parse_call(stream), stream),
    decreases stream.tokens.len(), 0nat,
{
    let invoke = seq![
        Keyword::I,
        Keyword::Shall,
        Keyword::Invoke,
        Keyword::The,
        Keyword::Fn,
        Keyword::Named,
    ];
    let take = seq![
        Keyword::And,
        Keyword::It,
        Keyword::Shall,
        Keyword::Take,
        Keyword::The,
        Keyword::Parameters,
    ];
    lemma_phrase_shortens(stream, invoke);
    lemma_phrase_within(stream, invoke);
    if let Ok(s1) = expect_phrase(stream, invoke) {
        if let Ok(s2) = s1.advance() {
            lemma_phrase_shortens(s2, take);
            lemma_phrase_within(s2, take);
            if let Ok(s3) = expect_phrase(s2, take) {
                if let Ok(s4) = expect(s3, SpecTokenKind::LBrace) {
                    lemma_arguments_within(s4);
                }
            }
        }
    }
}

/// The arguments of a call meet no limit of the machine that the stream
/// does not end in.
pub proof fn lemma_arguments_within(stream: TokenStream)
    requires
        within_limits(stream.end),
    ensures
        keeps(parse_arguments(stream), stream),
    decreases stream.tokens.len(), 5nat,
{
    if !(stream.current().kind is RBrace) {
        lemma_expression_within(stream, 0);
        if let Ok((first, rest)) = parse_expression(stream, 0) {
            if rest.shorter(stream) {
                lemma_more_arguments_within(seq![first], rest);
            }
        }
    }
}

/// Further arguments meet no limit of the machine that the stream does not
/// end in.
pub proof fn lemma_more_arguments_within(args: Seq<SpecExpression>, stream: TokenStream)
    requires
        within_limits(stream.end),
    ensures
        keeps(more_arguments(args, stream), stream),
    decreases stream.tokens.len(), 5nat,
{
    if stream.current().kind is Comma {
        if let Ok(s1) = stream.advance() {
            lemma_expression_within(s1, 0);
            if let Ok((arg, s2)) = parse_expression(s1, 0) {
                if s2.shorter(s1) {
                    lemma_more_arguments_within(args.push(arg), s2);
                }
            }
        }
    }
}

/// A declaration meets no limit of the machine that the stream does not end
/// in.
pub proof fn lemma_declaration_within(stream: TokenStream)
    requires
        within_limits(stream.end),
    ensures
        keeps(parse_declaration(stream), stream),
{
    let declaring = seq![
        Keyword::I,
        Keyword::Am,
        Keyword::Declaring,
        Keyword::A,
        Keyword::Variable,
        Keyword::Named,
    ];
    let equal = seq![Keyword::Shall, Keyword::Be, Keyword::Equal, Keyword::To];
    lemma_phrase_within(stream, declaring);
    if let Ok(s1) = expect_phrase(stream, declaring) {
        if let Ok(s2) = s1.advance() {
            if let Ok(s3) = expect_keyword(s2, Keyword::Is) {
                lemma_type_within(s3);
                if let Ok((ty, s4)) = parse_type(s3) {
                    lemma_phrase_within(s4, equal);
                    if let Ok(s5) = expect_phrase(s4, equal) {
                        lemma_expression_within(s5, 0);
                    }
                }
            }
        }
    }
}

/// A statement meets no limit of the machine that the stream does not end
/// in.
pub proof fn lemma_statement_within(stream: TokenStream)
    requires
        within_limits(stream.end),
    ensures
        keeps(parse_statement(stream), stream),
    decreases stream.tokens.len(), 3nat,
{
    match stream.current().kind {
        SpecTokenKind::Keyword(Keyword::Return) => {
            if let Ok(s1) = stream.advance() {
                lemma_expression_within(s1, 0);
            }
        },
        SpecTokenKind::Keyword(Keyword::In) => {
            let case = seq![Keyword::In, Keyword::The, Keyword::Case, Keyword::That];
            lemma_phrase_shortens(stream, case);
            lemma_phrase_within(stream, case);
            if let Ok(s1) = expect_phrase(stream, case) {
                lemma_expression_shortens(s1, 0);
                lemma_expression_within(s1, 0);
                if let Ok((condition, s2)) = parse_expression(s1, 0) {
                    if let Ok(s3) = expect_keyword(s2, Keyword::Do) {
                        lemma_statement_within(s3);
                        if let Ok((then_branch, s4)) = parse_statement(s3) {
                            let otherwise = seq![Keyword::Or, Keyword::Do];
                            lemma_phrase_shortens(s4, otherwise);
                            lemma_phrase_within(s4, otherwise);
                            if let Ok(s5) = expect_phrase(s4, otherwise) {
                                if s4.shorter(s3) {
                                    lemma_statement_within(s5);
                                }
                            }
                        }
                    }
                }
            }
        },
        SpecTokenKind::Keyword(Keyword::During) => {
            let during = seq![Keyword::During, Keyword::The, Keyword::Period, Keyword::That];
            let holds = seq![Keyword::Is, Keyword::Not, Keyword::Zero, Keyword::Do];
            lemma_phrase_shortens(stream, during);
            lemma_phrase_within(stream, during);
            if let Ok(s1) = expect_phrase(stream, during) {
                lemma_expression_shortens(s1, 0);
                lemma_expression_within(s1, 0);
                if let Ok((condition, s2)) = parse_expression(s1, 0) {
                    lemma_phrase_shortens(s2, holds);
                    lemma_phrase_within(s2, holds);
                    if let Ok(s3) = expect_phrase(s2, holds) {
                        lemma_statement_within(s3);
                    }
                }
            }
        },
        SpecTokenKind::LParen => {
            lemma_block_within(stream);
        },
        _ => {
            lemma_expression_within(stream, 0);
        },
    }
}

/// A block meets no limit of the machine that the stream does not end in.
pub proof fn lemma_block_within(stream: TokenStream)
    requires
        within_limits(stream.end),
    ensures
        keeps(parse_block(stream), stream),
    decreases stream.tokens.len(), 2nat,
{
    if let Ok(s1) = expect(stream, SpecTokenKind::LParen) {
        lemma_items_within(Seq::empty(), s1);
    }
}

/// The items of a block meet no limit of the machine that the stream does
/// not end in.
pub proof fn lemma_items_within(items: Seq<SpecBlockItem>, stream: TokenStream)
    requires
        within_limits(stream.end),
    ensures
        keeps(parse_items(items, stream), stream),
    decreases stream.tokens.len(), 5nat,
{
    if !(stream.current().kind is RParen) {
        lemma_block_item_within(stream);
        if let Ok((item, rest)) = parse_block_item(stream) {
            if rest.shorter(stream) {
                lemma_items_within(items.push(item), rest);
            }
        }
    }
}

/// A block item meets no limit of the machine that the stream does not end
/// in.
pub proof fn lemma_block_item_within(stream: TokenStream)
    requires
        within_limits(stream.end),
    ensures
        keeps(parse_block_item(stream), stream),
    decreases stream.tokens.len(), 4nat,
{
    lemma_declaration_within(stream);
    lemma_statement_within(stream);
}

/// Further parameters meet no limit of the machine that the stream does not
/// end in.
pub proof fn lemma_more_params_within(params: Seq<(Seq<char>, SpecType)>, stream: TokenStream)
    requires
        within_limits(stream.end),
    ensures
        keeps(more_params(params, stream), stream),
    decreases stream.tokens.len(),
{
    if stream.current().kind is Comma {
        if let Ok(s1) = stream.advance() {
            lemma_param_within(s1);
            if let Ok((param, s2)) = parse_param(s1) {
                if s2.shorter(s1) {
                    lemma_more_params_within(params.push(param), s2);
                }
            }
        }
    }
}

/// A function definition meets no limit of the machine that the stream does
/// not end in.
pub proof fn lemma_definition_within(stream: TokenStream, ordinal: nat)
    requires
        within_limits(stream.end),
    ensures
        keeps(parse_function_definition(stream, ordinal), stream),
{
    let numbered = seq![Keyword::The, Keyword::Fn, Keyword::Numbered];
    let equal = seq![Keyword::Shall, Keyword::Be, Keyword::Equal, Keyword::To];
    lemma_phrase_within(stream, numbered);
    if let Ok(s1) = expect_phrase(stream, numbered) {
        if let Ok(s2) = s1.advance() {
            if let Ok(s3) = expect_keyword(s2, Keyword::Is) {
                lemma_type_within(s3);
                if let Ok((return_type, s4)) = parse_type(s3) {
                    lemma_phrase_within(s4, equal);
                    if let Ok(s5) = expect_phrase(s4, equal) {
                        if let Ok(s6) = s5.advance() {
                            if let Ok(s7) = expect(s6, SpecTokenKind::LBracket) {
                                lemma_param_within(s7);
                                if let Ok((first, s8)) = parse_param(s7) {
                                    lemma_more_params_within(seq![first], s8);
                                }
                                if let Ok((params, s9)) = parse_params(s7) {
                                    if let Ok(s10) = expect(s9, SpecTokenKind::RBracket) {
                                        lemma_block_within(s10);
                                    }
                                }
                            }
                        }
                    }
                }
            }
        }
    }
}

/// Function definitions meet no limit of the machine that the stream does
/// not end in.
pub proof fn lemma_definitions_within(
    functions: Seq<SpecFunctionDefinition>,
    stream: TokenStream,
    ordinal: nat,
)
    requires
        within_limits(stream.end),
    ensures
        within_limits(parse_definitions(functions, stream, ordinal)),
    decreases stream.tokens.len(),
{
    if !(stream.current().kind is EOF) {
        lemma_definition_within(stream, ordinal);
        if let Ok((function, rest)) = parse_function_definition(stream, ordinal) {
            if rest.shorter(stream) {
                lemma_definitions_within(functions.push(function), rest, ordinal + 1);
            }
        }
    }
}

/// A text that can be tokenized on this machine to its end can be parsed on
/// it: the parser reads nothing that tokenizing does not reach.
pub proof fn lemma_fitting_text(input: Seq<char>)
    requires
        crate::lexer::lexable(input),
    ensures
        within_limits(parse(input)),
{
    crate::lexer::lemma_fitting_scan(input, 0, 1);
    lemma_definitions_within(Seq::empty(), tokenize(input), 1);
}

/// The numbers of function definitions count up from one: where the next
/// definition, which comes after the definitions `functions`, carries
/// another number than its place in the program, parsing fails with
/// `WrongfunctionCount` of the number wanted and the number found, on the
/// line of the token after the number.
pub proof fn lemma_wrong_ordinal(
    functions: Seq<SpecFunctionDefinition>,
    stream: TokenStream,
    ordinal: nat,
    found: u64,
)
    requires
        ordinal == functions.len() + 1,
        expect_phrase(stream, seq![Keyword::The, Keyword::Fn, Keyword::Numbered]) matches Ok(
            numbered,
        ) && numbered.current().kind == SpecTokenKind::Number(found) && numbered.advance() is Ok,
        found != ordinal,
    ensures
        ({
            let numbered = expect_phrase(
                stream,
                seq![Keyword::The, Keyword::Fn, Keyword::Numbered],
            )->Ok_0;
            let error = Stop::Failure(
                fail(
                    SpecErrorKind::WrongfunctionCount { expected: ordinal as u64, found },
                    numbered.advance()->Ok_0.current().line,
                ),
            );
            &&& parse_function_definition(stream, ordinal) == Err::<
                (SpecFunctionDefinition, TokenStream),
                Stop,
            >(error)
            &&& parse_definitions(functions, stream, ordinal) == Err::<
                Seq<SpecFunctionDefinition>,
                Stop,
            >(error)
        }),
{
    let phrase = seq![Keyword::The, Keyword::Fn, Keyword::Numbered];
    assert(phrase[0] == Keyword::The);
    assert(expect_keyword(stream, Keyword::The) is Ok);
}

/// A parser over a text: the tokenizer, the token at the front, and the
/// number that the next function definition must carry.
pub struct Parser<'a> {
    lexer: Lexer<'a>,
    current_token: Token,
    function_counter: u64,
}

impl<'a> Parser<'a> {
    /// Whether this parser is `before` after it passed at least one token: it
    /// is consistent, has fewer tokens ahead, and wants the same number on
    /// the next function definition.
    pub open spec fn passed(&self, before: &Parser<'a>) -> bool {
        &&& self.wf()
        &&& self.ordinal() == before.ordinal()
        &&& self.stream().shorter(before.stream())
    }

    /// The tokens that lie ahead, the front token first.
    pub closed spec fn stream(&self) -> TokenStream {
        if self.current_token@.kind is EOF {
            TokenStream { tokens: Seq::empty(), end: Ok(self.current_token@.line) }
        } else {
            let rest = scan(self.lexer.text(), self.lexer.position(), self.lexer.line());
            TokenStream { tokens: seq![self.current_token@] + rest.tokens, end: rest.end }
        }
    }

    /// The number that the next function definition must carry.
    pub closed spec fn ordinal(&self) -> nat {
        self.function_counter as nat
    }

    /// Whether the parser is consistent: its tokenizer is, and the number of
    /// the next function definition leaves room for as many definitions as
    /// there are tokens ahead.
    pub closed spec fn wf(&self) -> bool {
        &&& self.lexer.wf()
        &&& self.function_counter + self.stream().tokens.len() <= u64::MAX
    }

    /// A parser at the start of `input`, which fails if `input` does not
    /// start with a token.
    pub fn new(input: &'a str) -> (r: Result<Self, Error>)
        requires
            input@.len() < usize::MAX,
            tokenize(input@).tokens.len() == 0 ==> within_limits(tokenize(input@).end),
        ensures
            r is Err <==> tokenize(input@).tokens.len() == 0 && tokenize(input@).end is Err,
            match r {
                Ok(parser) => parser.wf() && parser.stream() == tokenize(input@)
                    && parser.ordinal() == 1,
                Err(e) => tokenize(input@) == (TokenStream {
                    tokens: Seq::empty(),
                    end: Err(Stop::Failure(e@)),
                }),
            },
    {
        let mut lexer = Lexer::new(input);
        proof {
            lemma_scan(input@, 0, 1);
        }
        let current_token = match lexer.next_token() {
            Ok(token) => token,
            Err(e) => { return Err(e); },
        };
        proof {
            lexer.lemma_wf();
            lemma_lex_advances(input@, 0, 1);
            lemma_scan(input@, lexer.position(), lexer.line());
        }
        Ok(Self { lexer, current_token, function_counter: 1 })
    }

    /// Passes the front token.
    fn next(&mut self) -> (r: Result<(), Error>)
        requires
            old(self).wf(),
            !(old(self).stream().current().kind is EOF),
            within_limits(old(self).stream().advance()),
        ensures
            match r {
                Ok(_) => old(self).stream().advance() == Ok::<TokenStream, Stop>(
                    final(self).stream(),
                ) && final(self).passed(old(self)),
                Err(e) => old(self).stream().advance() == Err::<TokenStream, Stop>(Stop::Failure(e@)),
            },
    {
        let token = match self.lexer.next_token() {
            Ok(token) => token,
            Err(e) => { return Err(e); },
        };
        self.current_token = token;
        proof {
            let before = old(self).stream();
            let rest = scan(self.lexer.text(), self.lexer.position(), self.lexer.line());
            if self.current_token@.kind is EOF {
                assert(before.tokens =~= seq![old(self).current_token@]);
            } else {
                assert(before.tokens.drop_first() =~= seq![self.current_token@] + rest.tokens);
            }
        }
        Ok(())
    }

    /// Reads the token after the front token without passing anything.
    fn peek(&self) -> (r: Result<Token, Error>)
        requires
            self.wf(),
            !(self.stream().current().kind is EOF),
            within_limits(self.stream().peek()),
        ensures
            match r {
                Ok(token) => self.stream().peek() == Ok::<SpecToken, Stop>(token@),
                Err(e) => self.stream().peek() == Err::<SpecToken, Stop>(Stop::Failure(e@)),
            },
    {
        let token = match self.lexer.peek_token() {
            Ok(token) => token,
            Err(e) => { return Err(e); },
        };
        proof {
            let before = self.stream();
            let step = lex(self.lexer.text(), self.lexer.position(), self.lexer.line());
            let rest = scan(self.lexer.text(), step.position, step.line);
            if !(token@.kind is EOF) {
                assert(before.tokens.drop_first() =~= seq![token@] + rest.tokens);
            } else {
                assert(before.tokens =~= seq![self.current_token@]);
            }
        }
        Ok(token)
    }

    /// Passes a token of kind `kind`, which must be at the front.
    fn expect(&mut self, kind: TokenKind) -> (r: Result<(), Error>)
        requires
            old(self).wf(),
            !(kind@ is EOF),
            within_limits(expect(old(self).stream(), kind@)),
        ensures
            match r {
                Ok(_) => expect(old(self).stream(), kind@) == Ok::<TokenStream, Stop>(
                    final(self).stream(),
                ) && final(self).passed(old(self)),
                Err(e) => expect(old(self).stream(), kind@) == Err::<TokenStream, Stop>(Stop::Failure(e@)),
            },
    {
        if self.current_token.kind.same(&kind) {
            self.next()
        } else {
            if self.current_token.kind.same(&TokenKind::EOF) {
                return Err(Error::new(ErrorKind::UnexpectedEOF, self.current_token.line));
            }
            Err(
                Error::new(
                    ErrorKind::UnexpectedToken {
                        expected: kind.to_string(),
                        found: self.current_token.kind.to_string(),
                    },
                    self.current_token.line,
                ),
            )
        }
    }

    /// Passes the keyword `kind`, which must be at the front.
    fn expect_keyword(&mut self, kind: Keyword) -> (r: Result<(), Error>)
        requires
            old(self).wf(),
            within_limits(expect_keyword(old(self).stream(), kind)),
        ensures
            match r {
                Ok(_) => expect_keyword(old(self).stream(), kind) == Ok::<TokenStream, Stop>(
                    final(self).stream(),
                ) && final(self).passed(old(self)),
                Err(e) => expect_keyword(old(self).stream(), kind) == Err::<
                    TokenStream,
                    Stop,
                >(Stop::Failure(e@)),
            },
    {
        self.expect(TokenKind::Keyword(kind))
    }

    /// Passes the keywords of `phrase`, which must be at the front in this
    /// order.
    fn expect_phrase<const N: usize>(&mut self, phrase: [Keyword; N]) -> (r: Result<(), Error>)
        requires
            old(self).wf(),
            within_limits(expect_phrase(old(self).stream(), phrase@)),
        ensures
            match r {
                Ok(_) => expect_phrase(old(self).stream(), phrase@) == Ok::<
                    TokenStream,
                    Stop,
                >(final(self).stream()) && final(self).wf() && final(self).ordinal()
                    == old(self).ordinal() && final(self).stream().tokens.len() + N
                    == old(self).stream().tokens.len(),
                Err(e) => expect_phrase(old(self).stream(), phrase@) == Err::<
                    TokenStream,
                    Stop,
                >(Stop::Failure(e@)),
            },
    {
        let mut i: usize = 0;
        assert(phrase@.skip(0) =~= phrase@);
        while i < N
            invariant
                i <= N,
                N == phrase@.len(),
                self.wf(),
                self.ordinal() == old(self).ordinal(),
                self.stream().tokens.len() + i == old(self).stream().tokens.len(),
                within_limits(expect_phrase(old(self).stream(), phrase@)),
                expect_phrase(old(self).stream(), phrase@) == expect_phrase(
                    self.stream(),
                    phrase@.skip(i as int),
                ),
            decreases N - i,
        {
            assert(phrase@.skip(i as int).drop_first() =~= phrase@.skip(i + 1));
            match self.expect_keyword(phrase[i]) {
                Ok(_) => {},
                Err(e) => { return Err(e); },
            }
            i += 1;
        }
        Ok(())
    }

    /// The text of the identifier at the front.
    fn identifier(&self) -> (r: Result<String, Error>)
        requires
            self.wf(),
        ensures
            match r {
                Ok(name) => self.stream().current().kind == SpecTokenKind::Identifier(name@),
                Err(e) => !(self.stream().current().kind is Identifier) && Stop::Failure(e@)
                    == unexpected(
                    self.stream(),
                    "an identifier"@,
                ),
            },
    {
        if let TokenKind::Identifier(name) = &self.current_token.kind {
            Ok(name.clone())
        } else {
            Err(
                Error::new(
                    ErrorKind::UnexpectedToken {
                        expected: String::from_str("an identifier"),
                        found: self.current_token.kind.to_string(),
                    },
                    self.current_token.line,
                ),
            )
        }
    }

    /// Parses a type.
    pub fn parse_type(&mut self) -> (r: Result<Type, Error>)
        requires
            old(self).wf(),
            within_limits(parse_type(old(self).stream())),
        ensures
            match r {
                Ok(ty) => parse_type(old(self).stream()) == Ok::<
                    (SpecType, TokenStream),
                    Stop,
                >((ty@, final(self).stream())) && final(self).passed(old(self)),
                Err(e) => parse_type(old(self).stream()) == Err::<
                    (SpecType, TokenStream),
                    Stop,
                >(Stop::Failure(e@)),
            },
        decreases old(self).stream().tokens.len(),
    {
        match self.current_token.kind {
            TokenKind::Keyword(Keyword::I32) => {
                match self.next() {
                    Ok(_) => {},
                    Err(e) => { return Err(e); },
                }
                Ok(Type::I32)
            },
            TokenKind::Keyword(Keyword::Pointing) => {
                let phrase = [Keyword::Pointing, Keyword::At];
                assert(phrase@ =~= seq![Keyword::Pointing, Keyword::At]);
                match self.expect_phrase(phrase) {
                    Ok(_) => {},
                    Err(e) => { return Err(e); },
                }
                match self.parse_type() {
                    Ok(pointee) => Ok(Type::Pointer(Box::new(pointee))),
                    Err(e) => Err(e),
                }
            },
            _ => Err(
                Error::new(
                    ErrorKind::UnexpectedToken {
                        expected: String::from_str("a type"),
                        found: self.current_token.kind.to_string(),
                    },
                    self.current_token.line,
                ),
            ),
        }
    }

    /// Parses a parameter.
    pub fn parse_param(&mut self) -> (r: Result<(String, Type), Error>)
        requires
            old(self).wf(),
            within_limits(parse_param(old(self).stream())),
        ensures
            match r {
                Ok(param) => parse_param(old(self).stream()) == Ok::<
                    ((Seq<char>, SpecType), TokenStream),
                    Stop,
                >(((param.0@, param.1@), final(self).stream())) && final(self).passed(old(self)),
                Err(e) => parse_param(old(self).stream()) == Err::<
                    ((Seq<char>, SpecType), TokenStream),
                    Stop,
                >(Stop::Failure(e@)),
            },
    {
        let name = match self.identifier() {
            Ok(name) => name,
            Err(e) => { return Err(e); },
        };
        match self.next() {
            Ok(_) => {},
            Err(e) => { return Err(e); },
        }
        match self.expect_keyword(Keyword::Is) {
            Ok(_) => {},
            Err(e) => { return Err(e); },
        }
        match self.parse_type() {
            Ok(ty) => Ok((name, ty)),
            Err(e) => Err(e),
        }
    }

    /// How tightly the operator that starts with `kind` binds.
    fn get_prec(&self, kind: &TokenKind) -> (r: i8)
        ensures
            r == precedence(kind@),
    {
        match kind {
            TokenKind::Mul | TokenKind::Div | TokenKind::Mod => 50,
            TokenKind::Plus | TokenKind::Minus => 45,
            TokenKind::Keyword(Keyword::Shall) => 1,
            _ => -1,
        }
    }

    /// Parses an expression whose operators bind at least as tightly as
    /// `min_prec`, which lies between nothing at all, 0, and one more than
    /// the tightest, 51.
    #[verifier::loop_isolation(false)]
    #[verifier::rlimit(100)]
    pub fn parse_expression(&mut self, min_prec: i8) -> (r: Result<Expression, Error>)
        requires
            old(self).wf(),
            0 <= min_prec <= 51,
            within_limits(parse_expression(old(self).stream(), min_prec as int)),
        ensures
            match r {
                Ok(e) => parse_expression(old(self).stream(), min_prec as int) == Ok::<
                    (SpecExpression, TokenStream),
                    Stop,
                >((e@, final(self).stream())) && final(self).passed(old(self)),
                Err(e) => parse_expression(old(self).stream(), min_prec as int) == Err::<
                    (SpecExpression, TokenStream),
                    Stop,
                >(Stop::Failure(e@)),
            },
        decreases old(self).stream().tokens.len(), 4nat,
    {
        let mut left = match self.parse_factor() {
            Ok(e) => e,
            Err(e) => { return Err(e); },
        };
        let ghost first = left@;
        let ghost after_factor = self.stream();
        loop
            invariant
                self.wf(),
                self.ordinal() == old(self).ordinal(),
                self.stream().shorter(old(self).stream()),
                climb(first, after_factor, min_prec as int) == climb(
                    left@,
                    self.stream(),
                    min_prec as int,
                ),
            decreases self.stream().tokens.len(),
        {
            let prec = self.get_prec(&self.current_token.kind);
            if prec < min_prec {
                return Ok(left);
            }
            let line_started = left.line_started;
            let ghost here = self.stream();
            if self.current_token.kind.same(&TokenKind::Keyword(Keyword::Shall)) {
                let phrase = [
                    Keyword::Shall,
                    Keyword::Now,
                    Keyword::Be,
                    Keyword::Equal,
                    Keyword::To,
                ];
                assert(phrase@ =~= seq![
                    Keyword::Shall,
                    Keyword::Now,
                    Keyword::Be,
                    Keyword::Equal,
                    Keyword::To,
                ]);
                match self.expect_phrase(phrase) {
                    Ok(_) => {},
                    Err(e) => { return Err(e); },
                }
                let right = match self.parse_expression(prec) {
                    Ok(e) => e,
                    Err(e) => { return Err(e); },
                };
                left =
                Expression {
                    kind: ExpressionKind::Assign(Box::new(left), Box::new(right)),
                    line_started,
                    ty: Type::I32,
                };
            } else {
                let op = match operator(&self.current_token.kind) {
                    Some(op) => op,
                    None => { return Ok(left); },
                };
                match self.next() {
                    Ok(_) => {},
                    Err(e) => { return Err(e); },
                }
                let right = match self.parse_expression(prec + 1) {
                    Ok(e) => e,
                    Err(e) => { return Err(e); },
                };
                left =
                Expression {
                    kind: ExpressionKind::Binary(op, Box::new(left), Box::new(right)),
                    line_started,
                    ty: Type::I32,
                };
            }
        }
    }

    /// Parses a factor.
    pub fn parse_factor(&mut self) -> (r: Result<Expression, Error>)
        requires
            old(self).wf(),
            within_limits(parse_factor(old(self).stream())),
        ensures
            match r {
                Ok(e) => parse_factor(old(self).stream()) == Ok::<
                    (SpecExpression, TokenStream),
                    Stop,
                >((e@, final(self).stream())) && final(self).passed(old(self)),
                Err(e) => parse_factor(old(self).stream()) == Err::<
                    (SpecExpression, TokenStream),
                    Stop,
                >(Stop::Failure(e@)),
            },
        decreases old(self).stream().tokens.len(), 2nat,
    {
        let line_started = self.current_token.line;
        let inner = match self.parse_inner_factor() {
            Ok(e) => e,
            Err(e) => { return Err(e); },
        };
        if self.current_token.kind.same(&TokenKind::Keyword(Keyword::Is)) {
            let next = match self.peek() {
                Ok(token) => token,
                Err(e) => { return Err(e); },
            };
            if next.kind.same(&TokenKind::Keyword(Keyword::Zero)) {
                let phrase = [Keyword::Is, Keyword::Zero];
                assert(phrase@ =~= seq![Keyword::Is, Keyword::Zero]);
                match self.expect_phrase(phrase) {
                    Ok(_) => {},
                    Err(e) => { return Err(e); },
                }
                Ok(
                    Expression {
                        kind: ExpressionKind::IsZero(Box::new(inner)),
                        line_started,
                        ty: Type::I32,
                    },
                )
            } else {
                Ok(inner)
            }
        } else if self.current_token.kind.same(&TokenKind::Keyword(Keyword::ArrayStart)) {
            match self.next() {
                Ok(_) => {},
                Err(e) => { return Err(e); },
            }
            let index = match self.parse_expression(0) {
                Ok(e) => e,
                Err(e) => { return Err(e); },
            };
            match self.expect(TokenKind::Keyword(Keyword::ArrayEnd)) {
                Ok(_) => {},
                Err(e) => { return Err(e); },
            }
            Ok(
                Expression {
                    kind: ExpressionKind::Subscript(Box::new(inner), Box::new(index)),
                    line_started,
                    ty: Type::I32,
                },
            )
        } else {
            Ok(inner)
        }
    }

    /// Parses an inner factor.
    pub fn parse_inner_factor(&mut self) -> (r: Result<Expression, Error>)
        requires
            old(self).wf(),
            within_limits(parse_inner_factor(old(self).stream())),
        ensures
            match r {
                Ok(e) => parse_inner_factor(old(self).stream()) == Ok::<
                    (SpecExpression, TokenStream),
                    Stop,
                >((e@, final(self).stream())) && final(self).passed(old(self)),
                Err(e) => parse_inner_factor(old(self).stream()) == Err::<
                    (SpecExpression, TokenStream),
                    Stop,
                >(Stop::Failure(e@)),
            },
        decreases old(self).stream().tokens.len(), 1nat,
    {
        let line_started = self.current_token.line;
        match &self.current_token.kind {
            TokenKind::Number(n) => {
                let n = *n;
                match self.next() {
                    Ok(_) => {},
                    Err(e) => { return Err(e); },
                }
                Ok(Expression { kind: ExpressionKind::Number(n), line_started, ty: Type::I32 })
            },
            TokenKind::LBrace => {
                match self.next() {
                    Ok(_) => {},
                    Err(e) => { return Err(e); },
                }
                let expr = match self.parse_expression(0) {
                    Ok(e) => e,
                    Err(e) => { return Err(e); },
                };
                match self.expect(TokenKind::RBrace) {
                    Ok(_) => {},
                    Err(e) => { return Err(e); },
                }
                Ok(expr)
            },
            TokenKind::Identifier(name) => {
                let name = name.clone();
                match self.next() {
                    Ok(_) => {},
                    Err(e) => { return Err(e); },
                }
                Ok(Expression { kind: ExpressionKind::Variable(name), line_started, ty: Type::I32 })
            },
            TokenKind::Keyword(Keyword::I) => self.parse_call(),
            TokenKind::Keyword(Keyword::Get) => {
                let phrase = [Keyword::Get, Keyword::The, Keyword::Address, Keyword::Of];
                assert(phrase@ =~= seq![
                    Keyword::Get,
                    Keyword::The,
                    Keyword::Address,
                    Keyword::Of,
                ]);
                match self.expect_phrase(phrase) {
                    Ok(_) => {},
                    Err(e) => { return Err(e); },
                }
                let expr = match self.parse_inner_factor() {
                    Ok(e) => e,
                    Err(e) => { return Err(e); },
                };
                Ok(
                    Expression {
                        kind: ExpressionKind::AddressOf(Box::new(expr)),
                        line_started,
                        ty: Type::I32,
                    },
                )
            },
            TokenKind::Keyword(Keyword::What) => {
                match self.next() {
                    Ok(_) => {},
                    Err(e) => { return Err(e); },
                }
                let expr = match self.parse_inner_factor() {
                    Ok(e) => e,
                    Err(e) => { return Err(e); },
                };
                let phrase = [Keyword::Is, Keyword::Pointing, Keyword::At];
                assert(phrase@ =~= seq![Keyword::Is, Keyword::Pointing, Keyword::At]);
                match self.expect_phrase(phrase) {
                    Ok(_) => {},
                    Err(e) => { return Err(e); },
                }
                Ok(
                    Expression {
                        kind: ExpressionKind::Dereference(Box::new(expr)),
                        line_started,
                        ty: Type::I32,
                    },
                )
            },
            _ => Err(
                Error::new(
                    ErrorKind::UnexpectedToken {
                        expected: String::from_str("a factor"),
                        found: self.current_token.kind.to_string(),
                    },
                    self.current_token.line,
                ),
            ),
        }
    }

    /// Parses a call.
    #[verifier::loop_isolation(false)]
    #[verifier::rlimit(100)]
    pub fn parse_call(&mut self) -> (r: Result<Expression, Error>)
        requires
            old(self).wf(),
            within_limits(parse_call(old(self).stream())),
        ensures
            match r {
                Ok(e) => parse_call(old(self).stream()) == Ok::<
                    (SpecExpression, TokenStream),
                    Stop,
                >((e@, final(self).stream())) && final(self).passed(old(self)),
                Err(e) => parse_call(old(self).stream()) == Err::<
                    (SpecExpression, TokenStream),
                    Stop,
                >(Stop::Failure(e@)),
            },
        decreases old(self).stream().tokens.len(), 0nat,
    {
        let line_started = self.current_token.line;
        let invoke = [
            Keyword::I,
            Keyword::Shall,
            Keyword::Invoke,
            Keyword::The,
            Keyword::Fn,
            Keyword::Named,
        ];
        assert(invoke@ =~= seq![
            Keyword::I,
            Keyword::Shall,
            Keyword::Invoke,
            Keyword::The,
            Keyword::Fn,
            Keyword::Named,
        ]);
        match self.expect_phrase(invoke) {
            Ok(_) => {},
            Err(e) => { return Err(e); },
        }
        let fun_name = match self.identifier() {
            Ok(name) => name,
            Err(e) => { return Err(e); },
        };
        match self.next() {
            Ok(_) => {},
            Err(e) => { return Err(e); },
        }
        let take = [
            Keyword::And,
            Keyword::It,
            Keyword::Shall,
            Keyword::Take,
            Keyword::The,
            Keyword::Parameters,
        ];
        assert(take@ =~= seq![
            Keyword::And,
            Keyword::It,
            Keyword::Shall,
            Keyword::Take,
            Keyword::The,
            Keyword::Parameters,
        ]);
        match self.expect_phrase(take) {
            Ok(_) => {},
            Err(e) => { return Err(e); },
        }
        match self.expect(TokenKind::LBrace) {
            Ok(_) => {},
            Err(e) => { return Err(e); },
        }
        let ghost at_args = self.stream();
        let mut args: Vec<Expression> = Vec::new();
        if !self.current_token.kind.same(&TokenKind::RBrace) {
            let first = match self.parse_expression(0) {
                Ok(e) => e,
                Err(e) => { return Err(e); },
            };
            args.push(first);
            assert(expression_models(args@) =~= seq![first@]);
            while self.current_token.kind.same(&TokenKind::Comma)
                invariant
                    self.wf(),
                    self.ordinal() == old(self).ordinal(),
                    self.stream().shorter(at_args),
                    parse_arguments(at_args) == more_arguments(
                        expression_models(args@),
                        self.stream(),
                    ),
                decreases self.stream().tokens.len(),
            {
                let ghost before = expression_models(args@);
                match self.next() {
                    Ok(_) => {},
                    Err(e) => { return Err(e); },
                }
                let arg = match self.parse_expression(0) {
                    Ok(e) => e,
                    Err(e) => { return Err(e); },
                };
                args.push(arg);
                assert(expression_models(args@) =~= before.push(arg@));
            }
        } else {
            assert(expression_models(args@) =~= Seq::empty());
        }
        match self.expect(TokenKind::RBrace) {
            Ok(_) => {},
            Err(e) => { return Err(e); },
        }
        Ok(
            Expression {
                kind: ExpressionKind::FunctionCall(fun_name, args),
                line_started,
                ty: Type::I32,
            },
        )
    }

    /// Parses a declaration.
    pub fn parse_declaration(&mut self) -> (r: Result<Declaration, Error>)
        requires
            old(self).wf(),
            within_limits(parse_declaration(old(self).stream())),
        ensures
            match r {
                Ok(d) => parse_declaration(old(self).stream()) == Ok::<
                    (SpecDeclaration, TokenStream),
                    Stop,
                >((d@, final(self).stream())) && final(self).passed(old(self)),
                Err(e) => parse_declaration(old(self).stream()) == Err::<
                    (SpecDeclaration, TokenStream),
                    Stop,
                >(Stop::Failure(e@)),
            },
    {
        let line_started = self.current_token.line;
        let declaring = [
            Keyword::I,
            Keyword::Am,
            Keyword::Declaring,
            Keyword::A,
            Keyword::Variable,
            Keyword::Named,
        ];
        assert(declaring@ =~= seq![
            Keyword::I,
            Keyword::Am,
            Keyword::Declaring,
            Keyword::A,
            Keyword::Variable,
            Keyword::Named,
        ]);
        match self.expect_phrase(declaring) {
            Ok(_) => {},
            Err(e) => { return Err(e); },
        }
        let name = match self.identifier() {
            Ok(name) => name,
            Err(e) => { return Err(e); },
        };
        match self.next() {
            Ok(_) => {},
            Err(e) => { return Err(e); },
        }
        match self.expect_keyword(Keyword::Is) {
            Ok(_) => {},
            Err(e) => { return Err(e); },
        }
        let ty = match self.parse_type() {
            Ok(ty) => ty,
            Err(e) => { return Err(e); },
        };
        let equal = [Keyword::Shall, Keyword::Be, Keyword::Equal, Keyword::To];
        assert(equal@ =~= seq![Keyword::Shall, Keyword::Be, Keyword::Equal, Keyword::To]);
        match self.expect_phrase(equal) {
            Ok(_) => {},
            Err(e) => { return Err(e); },
        }
        let value = match self.parse_expression(0) {
            Ok(e) => e,
            Err(e) => { return Err(e); },
        };
        match self.expect(TokenKind::Keyword(Keyword::Period)) {
            Ok(_) => {},
            Err(e) => { return Err(e); },
        }
        Ok(Declaration { name, ty, value, line_started })
    }

    /// Parses a statement.
    pub fn parse_statement(&mut self) -> (r: Result<Statement, Error>)
        requires
            old(self).wf(),
            within_limits(parse_statement(old(self).stream())),
        ensures
            match r {
                Ok(s) => parse_statement(old(self).stream()) == Ok::<
                    (SpecStatement, TokenStream),
                    Stop,
                >((s@, final(self).stream())) && final(self).passed(old(self)),
                Err(e) => parse_statement(old(self).stream()) == Err::<
                    (SpecStatement, TokenStream),
                    Stop,
                >(Stop::Failure(e@)),
            },
        decreases old(self).stream().tokens.len(), 3nat,
    {
        let line_started = self.current_token.line;
        if self.current_token.kind.same(&TokenKind::Keyword(Keyword::Return)) {
            match self.next() {
                Ok(_) => {},
                Err(e) => { return Err(e); },
            }
            let expr = match self.parse_expression(0) {
                Ok(e) => e,
                Err(e) => { return Err(e); },
            };
            match self.expect(TokenKind::Keyword(Keyword::Period)) {
                Ok(_) => {},
                Err(e) => { return Err(e); },
            }
            Ok(Statement { kind: StatementKind::Return(expr), line_started })
        } else if self.current_token.kind.same(&TokenKind::Keyword(Keyword::In)) {
            let case = [Keyword::In, Keyword::The, Keyword::Case, Keyword::That];
            assert(case@ =~= seq![Keyword::In, Keyword::The, Keyword::Case, Keyword::That]);
            match self.expect_phrase(case) {
                Ok(_) => {},
                Err(e) => { return Err(e); },
            }
            let cond = match self.parse_expression(0) {
                Ok(e) => e,
                Err(e) => { return Err(e); },
            };
            match self.expect_keyword(Keyword::Do) {
                Ok(_) => {},
                Err(e) => { return Err(e); },
            }
            let block = match self.parse_statement() {
                Ok(s) => s,
                Err(e) => { return Err(e); },
            };
            let else_block = if self.current_token.kind.same(&TokenKind::Keyword(Keyword::Or)) {
                let otherwise = [Keyword::Or, Keyword::Do];
                assert(otherwise@ =~= seq![Keyword::Or, Keyword::Do]);
                match self.expect_phrase(otherwise) {
                    Ok(_) => {},
                    Err(e) => { return Err(e); },
                }
                match self.parse_statement() {
                    Ok(s) => Some(Box::new(s)),
                    Err(e) => { return Err(e); },
                }
            } else {
                None
            };
            Ok(Statement { kind: StatementKind::If(cond, Box::new(block), else_block), line_started })
        } else if self.current_token.kind.same(&TokenKind::Keyword(Keyword::During)) {
            let during = [Keyword::During, Keyword::The, Keyword::Period, Keyword::That];
            assert(during@ =~= seq![
                Keyword::During,
                Keyword::The,
                Keyword::Period,
                Keyword::That,
            ]);
            match self.expect_phrase(during) {
                Ok(_) => {},
                Err(e) => { return Err(e); },
            }
            let cond = match self.parse_expression(0) {
                Ok(e) => e,
                Err(e) => { return Err(e); },
            };
            let holds = [Keyword::Is, Keyword::Not, Keyword::Zero, Keyword::Do];
            assert(holds@ =~= seq![Keyword::Is, Keyword::Not, Keyword::Zero, Keyword::Do]);
            match self.expect_phrase(holds) {
                Ok(_) => {},
                Err(e) => { return Err(e); },
            }
            let block = match self.parse_statement() {
                Ok(s) => s,
                Err(e) => { return Err(e); },
            };
            Ok(Statement { kind: StatementKind::While(cond, Box::new(block)), line_started })
        } else if self.current_token.kind.same(&TokenKind::LParen) {
            let block = match self.parse_block() {
                Ok(b) => b,
                Err(e) => { return Err(e); },
            };
            Ok(Statement { kind: StatementKind::Block(block), line_started })
        } else {
            let expr = match self.parse_expression(0) {
                Ok(e) => e,
                Err(e) => { return Err(e); },
            };
            match self.expect(TokenKind::Keyword(Keyword::Period)) {
                Ok(_) => {},
                Err(e) => { return Err(e); },
            }
            Ok(Statement { kind: StatementKind::Expression(expr), line_started })
        }
    }

    /// Parses a block.
    #[verifier::loop_isolation(false)]
    #[verifier::rlimit(100)]
    pub fn parse_block(&mut self) -> (r: Result<Block, Error>)
        requires
            old(self).wf(),
            within_limits(parse_block(old(self).stream())),
        ensures
            match r {
                Ok(b) => parse_block(old(self).stream()) == Ok::<
                    (SpecBlock, TokenStream),
                    Stop,
                >((b@, final(self).stream())) && final(self).passed(old(self)),
                Err(e) => parse_block(old(self).stream()) == Err::<
                    (SpecBlock, TokenStream),
                    Stop,
                >(Stop::Failure(e@)),
            },
        decreases old(self).stream().tokens.len(), 2nat,
    {
        let line_started = self.current_token.line;
        match self.expect(TokenKind::LParen) {
            Ok(_) => {},
            Err(e) => { return Err(e); },
        }
        let ghost inside = self.stream();
        let mut items: Vec<BlockItem> = Vec::new();
        assert(item_models(items@) =~= Seq::empty());
        while !self.current_token.kind.same(&TokenKind::RParen)
            invariant
                self.wf(),
                self.ordinal() == old(self).ordinal(),
                self.stream().shorter(old(self).stream()),
                parse_items(Seq::empty(), inside) == parse_items(
                    item_models(items@),
                    self.stream(),
                ),
            decreases self.stream().tokens.len(),
        {
            let ghost before = item_models(items@);
            let item = match self.parse_block_item() {
                Ok(item) => item,
                Err(e) => { return Err(e); },
            };
            items.push(item);
            assert(item_models(items@) =~= before.push(item@));
        }
        match self.expect(TokenKind::RParen) {
            Ok(_) => {},
            Err(e) => { return Err(e); },
        }
        Ok(Block { items, line_started })
    }

    /// Parses a block item.
    pub fn parse_block_item(&mut self) -> (r: Result<BlockItem, Error>)
        requires
            old(self).wf(),
            within_limits(parse_block_item(old(self).stream())),
        ensures
            match r {
                Ok(item) => parse_block_item(old(self).stream()) == Ok::<
                    (SpecBlockItem, TokenStream),
                    Stop,
                >((item@, final(self).stream())) && final(self).passed(old(self)),
                Err(e) => parse_block_item(old(self).stream()) == Err::<
                    (SpecBlockItem, TokenStream),
                    Stop,
                >(Stop::Failure(e@)),
            },
        decreases old(self).stream().tokens.len(), 4nat,
    {
        if self.current_token.kind.same(&TokenKind::Keyword(Keyword::I)) {
            let next = match self.peek() {
                Ok(token) => token,
                Err(e) => { return Err(e); },
            };
            if next.kind.same(&TokenKind::Keyword(Keyword::Am)) {
                match self.parse_declaration() {
                    Ok(d) => Ok(BlockItem::Declaration(d)),
                    Err(e) => Err(e),
                }
            } else {
                match self.parse_statement() {
                    Ok(s) => Ok(BlockItem::Statement(s)),
                    Err(e) => Err(e),
                }
            }
        } else {
            match self.parse_statement() {
                Ok(s) => Ok(BlockItem::Statement(s)),
                Err(e) => Err(e),
            }
        }
    }

    /// Parses a function definition, which must carry the number that the
    /// parser has counted up to.
    #[verifier::loop_isolation(false)]
    #[verifier::rlimit(100)]
    pub fn parse_function_definition(&mut self) -> (r: Result<FunctionDefinition, Error>)
        requires
            old(self).wf(),
            within_limits(parse_function_definition(old(self).stream(), old(self).ordinal())),
        ensures
            match r {
                Ok(f) => parse_function_definition(old(self).stream(), old(self).ordinal())
                    == Ok::<(SpecFunctionDefinition, TokenStream), Stop>(
                    (f@, final(self).stream()),
                ) && final(self).wf() && final(self).ordinal() == old(self).ordinal() + 1
                    && final(self).stream().shorter(old(self).stream()),
                Err(e) => parse_function_definition(old(self).stream(), old(self).ordinal())
                    == Err::<(SpecFunctionDefinition, TokenStream), Stop>(Stop::Failure(e@)),
            },
    {
        let line_started = self.current_token.line;
        let numbered = [Keyword::The, Keyword::Fn, Keyword::Numbered];
        assert(numbered@ =~= seq![Keyword::The, Keyword::Fn, Keyword::Numbered]);
        match self.expect_phrase(numbered) {
            Ok(_) => {},
            Err(e) => { return Err(e); },
        }
        let num = if let TokenKind::Number(num) = self.current_token.kind {
            num
        } else {
            return Err(
                Error::new(
                    ErrorKind::UnexpectedToken {
                        expected: String::from_str("a number"),
                        found: self.current_token.kind.to_string(),
                    },
                    self.current_token.line,
                ),
            );
        };
        match self.next() {
            Ok(_) => {},
            Err(e) => { return Err(e); },
        }
        if num != self.function_counter {
            return Err(
                Error::new(
                    ErrorKind::WrongfunctionCount { expected: self.function_counter, found: num },
                    self.current_token.line,
                ),
            );
        }
        self.function_counter += 1;
        match self.expect_keyword(Keyword::Is) {
            Ok(_) => {},
            Err(e) => { return Err(e); },
        }
        let return_type = match self.parse_type() {
            Ok(ty) => ty,
            Err(e) => { return Err(e); },
        };
        let equal = [Keyword::Shall, Keyword::Be, Keyword::Equal, Keyword::To];
        assert(equal@ =~= seq![Keyword::Shall, Keyword::Be, Keyword::Equal, Keyword::To]);
        match self.expect_phrase(equal) {
            Ok(_) => {},
            Err(e) => { return Err(e); },
        }
        let name = match self.identifier() {
            Ok(name) => name,
            Err(e) => { return Err(e); },
        };
        match self.next() {
            Ok(_) => {},
            Err(e) => { return Err(e); },
        }
        match self.expect(TokenKind::LBracket) {
            Ok(_) => {},
            Err(e) => { return Err(e); },
        }
        let ghost at_params = self.stream();
        let mut params: Vec<(String, Type)> = Vec::new();
        if !self.current_token.kind.same(&TokenKind::RBracket) {
            let first = match self.parse_param() {
                Ok(p) => p,
                Err(e) => { return Err(e); },
            };
            params.push(first);
            assert(param_models(params@) =~= seq![(first.0@, first.1@)]);
            while self.current_token.kind.same(&TokenKind::Comma)
                invariant
                    self.wf(),
                    self.ordinal() == old(self).ordinal() + 1,
                    self.stream().shorter(at_params),
                    parse_params(at_params) == more_params(param_models(params@), self.stream()),
                decreases self.stream().tokens.len(),
            {
                let ghost before = param_models(params@);
                match self.next() {
                    Ok(_) => {},
                    Err(e) => { return Err(e); },
                }
                let param = match self.parse_param() {
                    Ok(p) => p,
                    Err(e) => { return Err(e); },
                };
                params.push(param);
                assert(param_models(params@) =~= before.push((param.0@, param.1@)));
            }
        } else {
            assert(param_models(params@) =~= Seq::empty());
        }
        match self.expect(TokenKind::RBracket) {
            Ok(_) => {},
            Err(e) => { return Err(e); },
        }
        let body = if self.current_token.kind.same(&TokenKind::Semicolon) {
            match self.next() {
                Ok(_) => {},
                Err(e) => { return Err(e); },
            }
            None
        } else {
            match self.parse_block() {
                Ok(b) => Some(b),
                Err(e) => { return Err(e); },
            }
        };
        Ok(FunctionDefinition { name, params, return_type, body, line_started })
    }

    /// Parses the whole program: function definitions up to the end of the
    /// input, which must carry the numbers one, two, three and so on.
    #[verifier::loop_isolation(false)]
    #[verifier::rlimit(100)]
    pub fn parse_program(&mut self) -> (r: Result<Program, Error>)
        requires
            old(self).wf(),
            within_limits(parse_program(old(self).stream(), old(self).ordinal())),
        ensures
            match r {
                Ok(program) => parse_program(old(self).stream(), old(self).ordinal()) == Ok::<
                    SpecProgram,
                    Stop,
                >(program@) && final(self).wf() && final(self).stream().current().kind is EOF,
                Err(e) => parse_program(old(self).stream(), old(self).ordinal()) == Err::<
                    SpecProgram,
                    Stop,
                >(Stop::Failure(e@)),
            },
    {
        let mut functions: Vec<FunctionDefinition> = Vec::new();
        assert(function_models(functions@) =~= Seq::empty());
        while !self.current_token.kind.same(&TokenKind::EOF)
            invariant
                self.wf(),
                parse_definitions(Seq::empty(), old(self).stream(), old(self).ordinal())
                    == parse_definitions(
                    function_models(functions@),
                    self.stream(),
                    self.ordinal(),
                ),
            decreases self.stream().tokens.len(),
        {
            let ghost before = function_models(functions@);
            let function = match self.parse_function_definition() {
                Ok(f) => f,
                Err(e) => { return Err(e); },
            };
            functions.push(function);
            assert(function_models(functions@) =~= before.push(function@));
        }
        Ok(Program { functions })
    }
}

/// Parses the text `input` into a program.
pub fn parse_text(input: &str) -> (r: Result<Program, Error>)
    requires
        within_limits(parse(input@)),
    ensures
        match r {
            Ok(program) => parse(input@) == Ok::<SpecProgram, Stop>(program@),
            Err(e) => parse(input@) == Err::<SpecProgram, Stop>(Stop::Failure(e@)),
        },
{
    let mut parser = match Parser::new(input) {
        Ok(parser) => parser,
        Err(e) => { return Err(e); },
    };
    parser.parse_program()
}

/// The arithmetic operator that `kind` is, if it is one.
fn operator(kind: &TokenKind) -> (r: Option<Binop>)
    ensures
        r == binary_operator(kind@),
{
    match kind {
        TokenKind::Plus => Some(Binop::Add),
        TokenKind::Minus => Some(Binop::Sub),
        TokenKind::Mul => Some(Binop::Mul),
        TokenKind::Div => Some(Binop::Div),
        TokenKind::Mod => Some(Binop::Mod),
        _ => None,
    }
}

} // verus!
