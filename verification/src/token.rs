//! What a line of the log says, once it has been read.

use vstd::prelude::*;
use crate::parser::{finish_line, start_line};
use crate::time::TimeSpan;

verus! {

/// What one line of the log says.
#[derive(Clone, Debug, PartialEq, Eq)]
pub enum LineToken {
    /// A test has started. Its number in the log is not kept: a test is known
    /// by its name alone.
    Start { test_name: String },
    /// A test has finished after `duration`.
    Finish { test_name: String, duration: TimeSpan },
    /// The line is of neither shape.
    Unrecognized,
}

/// A `LineToken` as plain values.
pub enum TokenView {
    Start { name: Seq<char> },
    Finish { name: Seq<char>, duration: nat },
    Unrecognized,
}

impl View for LineToken {
    type V = TokenView;

    open spec fn view(&self) -> TokenView {
        match self {
            LineToken::Start { test_name } => TokenView::Start { name: test_name@ },
            LineToken::Finish { test_name, duration } => TokenView::Finish {
                name: test_name@,
                duration: duration@,
            },
            LineToken::Unrecognized => TokenView::Unrecognized,
        }
    }
}

/// What a line says: the start grammar is tried first, then the finish
/// grammar.
pub open spec fn line_token(line: Seq<char>) -> TokenView {
    match start_line(line) {
        Some((_, name)) => TokenView::Start { name },
        None => match finish_line(line) {
            Some((_, (name, duration))) => TokenView::Finish { name, duration },
            None => TokenView::Unrecognized,
        },
    }
}

/// What each of the lines says, in their order.
pub open spec fn line_tokens(lines: Seq<Seq<char>>) -> Seq<TokenView> {
    Seq::new(lines.len(), |i: int| line_token(lines[i]))
}

} // verus!
