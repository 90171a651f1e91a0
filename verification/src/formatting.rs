use crate::chars::{is_whitespace, whitespace};
use crate::errors::{fail, Error, ErrorKind, SpecError, SpecErrorKind};
use vstd::prelude::*;

verus! {

/// Where the line that starts at `start` ends: at the first line feed from
/// `start` on, or at the end of the text.
pub open spec fn line_end(input: Seq<char>, start: nat) -> nat
    decreases input.len() - start,
{
    if start < input.len() && input[start as int] != '\n' {
        line_end(input, start + 1)
    } else {
        start
    }
}

/// Where the content of the line that starts at `start` ends: where the line
/// ends, or one character before, if the line ends with a line feed and a
/// carriage return stands before it.
pub open spec fn content_end(input: Seq<char>, start: nat) -> nat {
    let end = line_end(input, start);
    if start < end && end < input.len() && input[end - 1] == '\r' {
        (end - 1) as nat
    } else {
        end
    }
}

/// The places where the lines of `input` start and where their contents
/// end, from the line that starts at `start` on.
pub open spec fn spans_from(input: Seq<char>, start: nat) -> Seq<(nat, nat)>
    decreases input.len() + 1 - start,
{
    if start >= input.len() {
        Seq::empty()
    } else {
        proof {
            lemma_line_end(input, start);
        }
        seq![(start, content_end(input, start))] + spans_from(input, line_end(input, start) + 1)
    }
}

/// The lines of `input`: what stands between its line feeds, without the
/// carriage return that may stand before a line feed. A text that ends with
/// a line feed has no line after it, and the empty text has no line.
pub open spec fn lines(input: Seq<char>) -> Seq<Seq<char>> {
    Seq::new(
        spans_from(input, 0).len(),
        |i: int| input.subrange(spans_from(input, 0)[i].0 as int, spans_from(input, 0)[i].1 as int),
    )
}

/// Whether `line` starts with white space.
pub open spec fn is_tabbed(line: Seq<char>) -> bool {
    line.len() > 0 && is_whitespace(line[0])
}

/// Whether some line of `input` starts with white space.
pub open spec fn has_tabbed_line(input: Seq<char>) -> bool {
    exists|i: int| 0 <= i < lines(input).len() && is_tabbed(#[trigger] lines(input)[i])
}

/// Whether some line of `input` is empty.
pub open spec fn has_empty_line(input: Seq<char>) -> bool {
    exists|i: int| 0 <= i < lines(input).len() && (#[trigger] lines(input)[i]).len() == 0
}

/// The line that the two formatting errors are blamed on: none of the text.
pub open spec fn no_line() -> nat {
    usize::MAX as nat
}

/// The formatting check: no line may start with white space, and no line may
/// be empty; the first rule is held to first, over the whole text.
pub open spec fn formatting(input: Seq<char>) -> Result<(), SpecError> {
    if has_tabbed_line(input) {
        Err(fail(SpecErrorKind::Tabbing, no_line()))
    } else if has_empty_line(input) {
        Err(fail(SpecErrorKind::ExtraLine, no_line()))
    } else {
        Ok(())
    }
}

/// A line ends at or after the place it starts, within the text.
pub proof fn lemma_line_end(input: Seq<char>, start: nat)
    ensures
        start <= line_end(input, start),
        start <= input.len() ==> line_end(input, start) <= input.len(),
        start <= content_end(input, start) <= line_end(input, start),
    decreases input.len() - start,
{
    if start < input.len() && input[start as int] != '\n' {
        lemma_line_end(input, start + 1);
    }
}

/// The lines from a place on are the line that starts there and the lines
/// after it.
proof fn lemma_spans_step(input: Seq<char>, done: Seq<(nat, nat)>, start: nat)
    requires
        start < input.len(),
        spans_from(input, 0) == done + spans_from(input, start),
    ensures
        spans_from(input, 0) == done.push((start, content_end(input, start))) + spans_from(
            input,
            line_end(input, start) + 1,
        ),
{
    let rest = spans_from(input, line_end(input, start) + 1);
    assert(done + (seq![(start, content_end(input, start))] + rest) =~= done.push(
        (start, content_end(input, start)),
    ) + rest);
}

/// Finds where the lines of `input` start and where their contents end.
pub fn line_spans(input: &str) -> (r: Vec<(usize, usize)>)
    ensures
        r@.len() == spans_from(input@, 0).len(),
        forall|i: int|
            0 <= i < r@.len() ==> (#[trigger] r@[i]).0 == spans_from(input@, 0)[i].0 && r@[i].1
                == spans_from(input@, 0)[i].1,
        forall|i: int| 0 <= i < r@.len() ==> (#[trigger] r@[i]).0 <= r@[i].1 <= input@.len(),
{
    let n = input.unicode_len();
    let mut spans: Vec<(usize, usize)> = Vec::new();
    let mut start: usize = 0;
    let ghost mut done: Seq<(nat, nat)> = Seq::empty();
    assert(done + spans_from(input@, 0) =~= spans_from(input@, 0));
    while start < n
        invariant
            n == input@.len(),
            start <= n,
            spans_from(input@, 0) == done + spans_from(input@, start as nat),
            spans@.len() == done.len(),
            forall|i: int|
                0 <= i < spans@.len() ==> (#[trigger] spans@[i]).0 == done[i].0 && spans@[i].1
                    == done[i].1,
            forall|i: int|
                0 <= i < spans@.len() ==> (#[trigger] spans@[i]).0 <= spans@[i].1 <= input@.len(),
        decreases n - start,
    {
        let mut end: usize = start;
        while end < n && input.get_char(end) != '\n'
            invariant
                n == input@.len(),
                start <= end <= n,
                line_end(input@, end as nat) == line_end(input@, start as nat),
            decreases n - end,
        {
            end += 1;
        }
        let content = if start < end && end < n && input.get_char(end - 1) == '\r' {
            end - 1
        } else {
            end
        };
        proof {
            lemma_spans_step(input@, done, start as nat);
            done = done.push((start as nat, content as nat));
        }
        spans.push((start, content));
        if end == n {
            start = n;
            proof {
                assert(spans_from(input@, (end + 1) as nat) =~= spans_from(input@, n as nat));
            }
        } else {
            start = end + 1;
        }
    }
    assert(done + spans_from(input@, start as nat) =~= done);
    spans
}

/// Tests that no line of `input` starts with white space.
pub fn check_for_tabs(input: &str) -> (r: bool)
    ensures
        r == !has_tabbed_line(input@),
{
    let spans = line_spans(input);
    let mut i: usize = 0;
    while i < spans.len()
        invariant
            i <= spans.len(),
            spans@.len() == spans_from(input@, 0).len(),
            forall|j: int|
                0 <= j < spans@.len() ==> (#[trigger] spans@[j]).0 == spans_from(input@, 0)[j].0
                    && spans@[j].1 == spans_from(input@, 0)[j].1,
            forall|j: int|
                0 <= j < spans@.len() ==> (#[trigger] spans@[j]).0 <= spans@[j].1 <= input@.len(),
            forall|j: int| 0 <= j < i ==> !is_tabbed(#[trigger] lines(input@)[j]),
        decreases spans.len() - i,
    {
        let (start, end) = spans[i];
        assert(lines(input@)[i as int] == input@.subrange(start as int, end as int));
        if start < end && whitespace(input.get_char(start)) {
            return false;
        }
        i += 1;
    }
    true
}

/// Tests that no line of `input` is empty.
pub fn check_for_empties(input: &str) -> (r: bool)
    ensures
        r == !has_empty_line(input@),
{
    let spans = line_spans(input);
    let mut i: usize = 0;
    while i < spans.len()
        invariant
            i <= spans.len(),
            spans@.len() == spans_from(input@, 0).len(),
            forall|j: int|
                0 <= j < spans@.len() ==> (#[trigger] spans@[j]).0 == spans_from(input@, 0)[j].0
                    && spans@[j].1 == spans_from(input@, 0)[j].1,
            forall|j: int|
                0 <= j < spans@.len() ==> (#[trigger] spans@[j]).0 <= spans@[j].1 <= input@.len(),
            forall|j: int| 0 <= j < i ==> (#[trigger] lines(input@)[j]).len() != 0,
        decreases spans.len() - i,
    {
        let (start, end) = spans[i];
        assert(lines(input@)[i as int] == input@.subrange(start as int, end as int));
        if start == end {
            return false;
        }
        i += 1;
    }
    true
}

/// Holds `input` to the two rules of formatting, before any token is made
/// of it.
pub fn formatting_check(input: &str) -> (r: Result<(), Error>)
    ensures
        match r {
            Ok(_) => formatting(input@) == Ok::<(), SpecError>(()),
            Err(e) => formatting(input@) == Err::<(), SpecError>(e@),
        },
{
    if !check_for_tabs(input) {
        return Err(Error::new(ErrorKind::Tabbing, usize::MAX));
    }
    if !check_for_empties(input) {
        return Err(Error::new(ErrorKind::ExtraLine, usize::MAX));
    }
    Ok(())
}


/// A text with a line that starts with a space or a tab fails the
/// formatting check with `Tabbing`.
pub proof fn lemma_tabbed_line(input: Seq<char>, line: int)
    requires
        0 <= line < lines(input).len(),
        lines(input)[line].len() > 0,
        lines(input)[line][0] == ' ' || lines(input)[line][0] == '\t',
    ensures
        formatting(input) == Err::<(), SpecError>(fail(SpecErrorKind::Tabbing, no_line())),
{
    assert(is_tabbed(lines(input)[line]));
}

/// A text with an empty line, and without a line that starts with white
/// space, fails the formatting check with `ExtraLine`.
pub proof fn lemma_empty_line(input: Seq<char>, line: int)
    requires
        0 <= line < lines(input).len(),
        lines(input)[line].len() == 0,
        !has_tabbed_line(input),
    ensures
        formatting(input) == Err::<(), SpecError>(fail(SpecErrorKind::ExtraLine, no_line())),
{
}

} // verus!
