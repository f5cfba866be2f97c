//! An editing session: the document, the defined functions, and what each
//! key does to them.
use vstd::prelude::*;
use crate::EvalError;
use crate::buffer::LineBuffer;
use crate::chars::copy_chars;
use crate::document::{is_comment, is_comment_line, save, saved_text};
use crate::functions::{
    canonical_digits, lookup_in, strip_zeros, substitute, substituted, FunctionTable,
};
use crate::linear::{
    extract_linear_coefficients, fixed2, linear_form, parse_unsigned, solution_hundredths, solve,
    unsigned_value, Decimal, Number,
};
use crate::bignum::dval;
use crate::recognize::{field_at, first_match, name_at, recognize, Recognized, Shape};

verus! {

/// What committing a line gives.
#[derive(Debug)]
pub enum Outcome {
    /// A function was defined under this name.
    Defined { name: Vec<char> },
    /// A call: `expr` is the body of the function with the argument in
    /// place of `x`, to be evaluated as arithmetic; `arg` is the argument
    /// without leading zeros.
    Evaluate { name: Vec<char>, arg: Vec<char>, expr: Vec<char> },
    /// An equation was solved: the solution with two digits after the point.
    Solved { solution: Vec<char> },
    /// The line gave no result.
    Failed { error: EvalError },
}

/// What an outcome holds, as sequences.
pub enum OutcomeView {
    Defined(Seq<char>),
    Evaluate(Seq<char>, Seq<char>, Seq<char>),
    Solved(Seq<char>),
    Failed(EvalError),
}

impl View for Outcome {
    type V = OutcomeView;

    open spec fn view(&self) -> OutcomeView {
        match self {
            Outcome::Defined { name } => OutcomeView::Defined(name@),
            Outcome::Evaluate { name, arg, expr } => OutcomeView::Evaluate(name@, arg@, expr@),
            Outcome::Solved { solution } => OutcomeView::Solved(solution@),
            Outcome::Failed { error } => OutcomeView::Failed(*error),
        }
    }
}

/// How an outcome is to be shown.
#[derive(PartialEq, Eq, Structural, Clone, Copy, Debug)]
pub enum Severity {
    Info,
    Error,
}

impl Outcome {
    /// A failure is an error; any other outcome is information.
    pub fn severity(&self) -> (r: Severity)
        ensures
            r == Severity::Error <==> self is Failed,
    {
        match self {
            Outcome::Failed { .. } => Severity::Error,
            _ => Severity::Info,
        }
    }
}

/// Solving for `target` a function whose body is `body`.
pub open spec fn solve_result(body: Seq<char>, target: Seq<char>) -> OutcomeView {
    match (linear_form(body), unsigned_value(target)) {
        (Some(ab), Some(tv)) => if dval(ab.0.digits) == 0 {
            OutcomeView::Failed(EvalError::SolveFailure)
        } else {
            OutcomeView::Solved(
                fixed2(
                    solution_hundredths(
                        ab.0,
                        ab.1,
                        Number { negative: false, digits: tv.0, scale: tv.1 },
                    ),
                ),
            )
        },
        _ => OutcomeView::Failed(EvalError::SolveFailure),
    }
}

/// What committing the line `s` gives, with the functions `t` defined.
pub open spec fn commit_result(s: Seq<char>, t: Seq<(Seq<char>, Seq<char>)>) -> OutcomeView {
    match first_match(Shape::Definition, s, 0) {
        Some(i) => OutcomeView::Defined(name_at(s, i)),
        None => match first_match(Shape::Call, s, 0) {
            Some(i) => match lookup_in(t, name_at(s, i)) {
                Some(b) => OutcomeView::Evaluate(
                    name_at(s, i),
                    strip_zeros(field_at(Shape::Call, s, i)),
                    substituted(b, strip_zeros(field_at(Shape::Call, s, i))),
                ),
                None => OutcomeView::Failed(EvalError::FunctionNotFound),
            },
            None => match first_match(Shape::Solve, s, 0) {
                Some(i) => match lookup_in(t, name_at(s, i)) {
                    Some(b) => solve_result(b, field_at(Shape::Solve, s, i)),
                    None => OutcomeView::Failed(EvalError::FunctionNotFound),
                },
                None => OutcomeView::Failed(EvalError::RecognitionFailure),
            },
        },
    }
}

/// The table after committing `s`: a definition is appended.
pub open spec fn table_after(s: Seq<char>, t: Seq<(Seq<char>, Seq<char>)>) -> Seq<
    (Seq<char>, Seq<char>),
> {
    match first_match(Shape::Definition, s, 0) {
        Some(i) => t.push((name_at(s, i), field_at(Shape::Definition, s, i))),
        None => t,
    }
}

fn solve_body(body: &Vec<char>, target: &Vec<char>) -> (r: Outcome)
    ensures
        r@ == solve_result(body@, target@),
{
    match (extract_linear_coefficients(body), parse_unsigned(target)) {
        (Some(ab), Some(tv)) => {
            let t = Decimal { negative: false, digits: tv.0, scale: tv.1 };
            match solve(&ab.0, &ab.1, &t) {
                Some(solution) => Outcome::Solved { solution },
                None => Outcome::Failed { error: EvalError::SolveFailure },
            }
        },
        _ => Outcome::Failed { error: EvalError::SolveFailure },
    }
}

/// Commits a line: a definition is added to `table`; a call is prepared for
/// evaluation with the earliest definition of its name; an equation is
/// solved with it. A name that is not defined gives `FunctionNotFound`,
/// a line of none of the three shapes `RecognitionFailure`.
pub fn commit_line(line: &Vec<char>, table: &mut FunctionTable) -> (r: Outcome)
    ensures
        r@ == commit_result(line@, old(table).view_entries()),
        final(table).view_entries() == table_after(line@, old(table).view_entries()),
{
    match recognize(line) {
        Recognized::Definition { name, body } => {
            let shown = copy_chars(&name);
            table.define(name, body);
            Outcome::Defined { name: shown }
        },
        Recognized::Call { name, arg } => match table.lookup(&name) {
            Some(body) => {
                let arg = canonical_digits(&arg);
                let expr = substitute(&body, &arg);
                Outcome::Evaluate { name, arg, expr }
            },
            None => Outcome::Failed { error: EvalError::FunctionNotFound },
        },
        Recognized::Solve { name, target } => match table.lookup(&name) {
            Some(body) => solve_body(&body, &target),
            None => Outcome::Failed { error: EvalError::FunctionNotFound },
        },
        Recognized::Unrecognized => Outcome::Failed { error: EvalError::RecognitionFailure },
    }
}

/// A key event, as far as editing is concerned.
#[derive(PartialEq, Eq, Structural, Clone, Copy, Debug)]
pub enum Key {
    Char(char),
    Enter,
    Backspace,
    Left,
    Right,
    Up,
    Down,
    Esc,
    /// Any other key: ignored.
    Other,
}

/// What the surroundings are asked to do after a key.
#[derive(Debug)]
pub enum Response {
    /// Nothing but redraw.
    Nothing,
    /// Show the outcome of a committed line.
    Report { outcome: Outcome },
    /// Write this text over the file and end the session.
    Save { text: Vec<char> },
}

/// The state of an editing session.
pub struct Session {
    pub buffer: LineBuffer,
    pub functions: FunctionTable,
}

impl Session {
    /// The session is well formed: so is its document.
    pub open spec fn wf(&self) -> bool {
        self.buffer.wf()
    }

    /// A session on `lines`, which must hold at least one line, with the
    /// cursor at the start and no function defined.
    pub fn new(lines: Vec<Vec<char>>) -> (r: Session)
        requires
            lines@.len() >= 1,
        ensures
            r.wf(),
            r.buffer.lines@ == lines@,
            r.buffer.line == 0,
            r.buffer.column == 0,
            r.functions.view_entries() == Seq::<(Seq<char>, Seq<char>)>::empty(),
    {
        Session { buffer: LineBuffer { lines, line: 0, column: 0 }, functions: FunctionTable::new() }
    }

    /// Handles one key. A character is inserted at the cursor; Enter on a
    /// comment line opens a new line, on any other line commits it first
    /// and reports the outcome; Backspace and the arrows edit and move as
    /// the document does; Esc asks to save the document without its comment
    /// lines; other keys change nothing.
    pub fn handle_key(&mut self, key: Key) -> (r: Response)
        requires
            old(self).wf(),
        ensures
            final(self).wf(),
            key != Key::Enter ==> final(self).functions == old(self).functions,
            match key {
                Key::Char(c) => {
                    &&& r is Nothing
                    &&& final(self).buffer.line == old(self).buffer.line
                    &&& final(self).buffer.column == old(self).buffer.column + 1
                    &&& final(self).buffer.text() == old(self).buffer.text().update(
                        old(self).buffer.line as int,
                        old(self).buffer.cur().insert(old(self).buffer.column as int, c),
                    )
                },
                Key::Enter => {
                    &&& final(self).buffer.line == old(self).buffer.line + 1
                    &&& final(self).buffer.column == 0
                    &&& final(self).buffer.text() == old(self).buffer.text().insert(
                        old(self).buffer.line + 1,
                        Seq::empty(),
                    )
                    &&& if is_comment_line(old(self).buffer.cur()) {
                        &&& r is Nothing
                        &&& final(self).functions == old(self).functions
                    } else {
                        &&& r matches Response::Report { outcome } && outcome@ == commit_result(
                            old(self).buffer.cur(),
                            old(self).functions.view_entries(),
                        )
                        &&& final(self).functions.view_entries() == table_after(
                            old(self).buffer.cur(),
                            old(self).functions.view_entries(),
                        )
                    }
                },
                Key::Esc => {
                    &&& r matches Response::Save { text } && text@ == saved_text(
                        old(self).buffer.text(),
                        true,
                    )
                    &&& final(self).buffer == old(self).buffer
                },
                Key::Backspace => r is Nothing && old(self).buffer.backspaced(final(self).buffer),
                Key::Left => r is Nothing && old(self).buffer.moved_left(final(self).buffer),
                Key::Right => r is Nothing && old(self).buffer.moved_right(final(self).buffer),
                Key::Up => r is Nothing && old(self).buffer.moved_up(final(self).buffer),
                Key::Down => r is Nothing && old(self).buffer.moved_down(final(self).buffer),
                Key::Other => r is Nothing && final(self).buffer == old(self).buffer,
            },
    {
        match key {
            Key::Char(c) => {
                self.buffer.insert_char(c);
                Response::Nothing
            },
            Key::Enter => {
                let l = self.buffer.line;
                if is_comment(&self.buffer.lines[l]) {
                    self.buffer.open_line();
                    Response::Nothing
                } else {
                    let outcome = commit_line(&self.buffer.lines[l], &mut self.functions);
                    self.buffer.open_line();
                    Response::Report { outcome }
                }
            },
            Key::Backspace => {
                self.buffer.delete_before_cursor();
                Response::Nothing
            },
            Key::Left => {
                self.buffer.move_left();
                Response::Nothing
            },
            Key::Right => {
                self.buffer.move_right();
                Response::Nothing
            },
            Key::Up => {
                self.buffer.move_up();
                Response::Nothing
            },
            Key::Down => {
                self.buffer.move_down();
                Response::Nothing
            },
            Key::Esc => {
                let text = save(&self.buffer.lines, true);
                assert(self.buffer.text() == Seq::new(
                    self.buffer.lines@.len(),
                    |i: int| self.buffer.lines@[i]@,
                ));
                Response::Save { text }
            },
            Key::Other => Response::Nothing,
        }
    }
}

} // verus!
