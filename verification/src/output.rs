//! Where the commands put their text: results on one stream, explanations on
//! another.

use vstd::prelude::*;
use vstd::string::*;

use crate::error;
use crate::error::{Error, ErrorView, IoError, IoErrorView, Result};
use crate::text;

verus! {

/// A stream that takes text.
///
/// `State` holds whatever the next answer depends on; `put_step` gives the
/// answer and the state that follows.
///
/// The model has a default nothing is known of, so that an implementation
/// written in plain Rust can leave it out.
pub trait Output: Sized {
    type State;

    open spec fn state(&self) -> Self::State {
        arbitrary()
    }

    open spec fn put_step(state: Self::State, text: Seq<char>) -> (
        core::result::Result<(), IoErrorView>,
        Self::State,
    ) {
        arbitrary()
    }

    fn put(&mut self, text: &str) -> (result: core::result::Result<(), IoError>)
        ensures
            (error::reply(result), final(self).state()) == Self::put_step(
                old(self).state(),
                text@,
            ),
    ;
}

/// Text kept in memory never refuses more.
impl Output for String {
    type State = Seq<char>;

    open spec fn state(&self) -> Seq<char> {
        self@
    }

    open spec fn put_step(state: Seq<char>, text: Seq<char>) -> (
        core::result::Result<(), IoErrorView>,
        Seq<char>,
    ) {
        (Ok(()), state + text)
    }

    fn put(&mut self, text: &str) -> (result: core::result::Result<(), IoError>) {
        self.append(text);
        Ok(())
    }
}

/// A failure to write, as a command reports it.
pub open spec fn written(answer: core::result::Result<(), IoErrorView>) -> core::result::Result<
    (),
    ErrorView,
> {
    match answer {
        Ok(()) => Ok(()),
        Err(err) => Err(ErrorView::Io { context: "writing output"@, source: err }),
    }
}

/// One line, and the newline that ends it.
pub open spec fn line_put<O: Output>(state: O::State, line: Seq<char>) -> (
    core::result::Result<(), ErrorView>,
    O::State,
) {
    let (answer, after) = O::put_step(state, line + "\n"@);
    (written(answer), after)
}

/// Lines from the `i`th on, one after the other up to the first that fails.
pub open spec fn lines_put<O: Output>(state: O::State, lines: Seq<Seq<char>>, i: int) -> (
    core::result::Result<(), ErrorView>,
    O::State,
)
    decreases lines.len() - i,
{
    if i >= lines.len() {
        (Ok(()), state)
    } else {
        let (answer, after) = line_put::<O>(state, lines[i]);
        match answer {
            Err(err) => (Err(err), after),
            Ok(()) => lines_put::<O>(after, lines, i + 1),
        }
    }
}

/// Writes one line.
pub fn put_line<O: Output>(out: &mut O, line: &str) -> (result: Result<()>)
    ensures
        (error::outcome(result), final(out).state()) == line_put::<O>(old(out).state(), line@),
{
    let mut text = line.to_owned();
    text.append("\n");
    match out.put(text.as_str()) {
        Ok(()) => Ok(()),
        Err(err) => Err(Error::io("writing output", err)),
    }
}

/// Writes the lines in order, up to the first that fails.
#[verifier::loop_isolation(false)]
pub fn put_lines<O: Output>(out: &mut O, lines: &Vec<String>) -> (result: Result<()>)
    ensures
        (error::outcome(result), final(out).state()) == lines_put::<O>(
            old(out).state(),
            text::views(lines@),
            0,
        ),
{
    let mut i: usize = 0;
    while i < lines.len()
        invariant
            i <= lines@.len(),
            lines_put::<O>(out.state(), text::views(lines@), i as int) == lines_put::<O>(
                old(out).state(),
                text::views(lines@),
                0,
            ),
        decreases lines@.len() - i,
    {
        if let Err(err) = put_line(out, lines[i].as_str()) {
            return Err(err);
        }
        i += 1;
    }
    Ok(())
}

/// The lines as text, each with its newline.
pub open spec fn as_text(lines: Seq<Seq<char>>) -> Seq<char>
    decreases lines.len(),
{
    if lines.len() == 0 {
        Seq::empty()
    } else {
        as_text(lines.drop_last()) + lines.last() + "\n"@
    }
}

/// Text kept in memory gains exactly the lines it is given.
pub proof fn memory_gains_the_lines(state: Seq<char>, lines: Seq<Seq<char>>)
    ensures
        lines_put::<String>(state, lines, 0) == (
            Ok::<(), ErrorView>(()),
            state + as_text(lines),
        ),
{
    memory_gains_from(state, lines, 0);
    assert(lines.subrange(0, lines.len() as int) =~= lines);
}

proof fn memory_gains_from(state: Seq<char>, lines: Seq<Seq<char>>, i: int)
    requires
        0 <= i <= lines.len(),
    ensures
        lines_put::<String>(state, lines, i) == (
            Ok::<(), ErrorView>(()),
            state + as_text(lines.subrange(i, lines.len() as int)),
        ),
    decreases lines.len() - i,
{
    if i < lines.len() {
        memory_gains_from(state + (lines[i] + "\n"@), lines, i + 1);
        let rest = lines.subrange(i + 1, lines.len() as int);
        let here = lines.subrange(i, lines.len() as int);
        assert(here =~= seq![lines[i]] + rest);
        text_of_first_and_rest(lines[i], rest);
        assert(state + (lines[i] + "\n"@) + as_text(rest) =~= state + as_text(here));
    } else {
        assert(lines.subrange(i, lines.len() as int) =~= Seq::empty());
        assert(state + as_text(Seq::empty()) =~= state);
    }
}

proof fn text_of_first_and_rest(first: Seq<char>, rest: Seq<Seq<char>>)
    ensures
        as_text(seq![first] + rest) == first + "\n"@ + as_text(rest),
    decreases rest.len(),
{
    let all = seq![first] + rest;
    if rest.len() == 0 {
        assert(all.drop_last() =~= rest);
        assert(all.last() == first);
        assert(as_text(rest) =~= Seq::<char>::empty());
        assert(as_text(all) =~= first + "\n"@ + as_text(rest));
    } else {
        assert(all.drop_last() =~= seq![first] + rest.drop_last());
        assert(all.last() == rest.last());
        text_of_first_and_rest(first, rest.drop_last());
        assert(as_text(all) =~= first + "\n"@ + as_text(rest));
    }
}

} // verus!
