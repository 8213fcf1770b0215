//! The evaluation of a formula, as a machine that its host steps.
//!
//! [`Evaluation::advance`] takes the state and the answer to the question
//! that the step before asked, if it asked one, and gives the next state and
//! what to do: step again, compute something and step again with the answer,
//! or stop with the result. Formulas in the cells that a formula reads are
//! evaluated on the way, each once, and a formula that needs its own value
//! ends the evaluation.

use vstd::prelude::*;

use crate::formula_functions::FormulaFunction;
use crate::formula_functions::function_named;
use crate::formula_functions::get_func;
use crate::instructions::Answer;
use crate::instructions::AnswerView;
use crate::instructions::Calculation;
use crate::instructions::CalculationView;
use crate::instructions::CellValue;
use crate::instructions::CellValueView;
use crate::instructions::Pending;
use crate::instructions::Plan;
use crate::instructions::PlanView;
use crate::instructions::answer_token;
use crate::instructions::answered;
use crate::instructions::body_of;
use crate::instructions::copy_result;
use crate::instructions::is_formula;
use crate::instructions::lemma_planned_is_well_posed;
use crate::instructions::literal;
use crate::instructions::literal_token;
use crate::instructions::plan;
use crate::instructions::planned;
use crate::instructions::result_view;
use crate::instructions::value_views;
use crate::instructions::well_posed;
use crate::lexer::lexed;
use crate::lexer::parse_formula;
use crate::numbers::random_word;
use crate::reorder::postfix_of;
use crate::reorder::reorder;
use crate::spreadsheet::Spreadsheet;
use crate::spreadsheet::SpreadsheetCell;
use crate::text::chars_of;
use crate::text::string_from;
use crate::tokens::FormulaError;
use crate::tokens::Token;
use crate::tokens::TokenType;
use crate::tokens::TokenView;
use crate::tokens::lemma_views_push;
use crate::tokens::views;

verus! {

/// One formula under evaluation: the cell it stands in, if it stands in one,
/// its postfix program, the index of the next instruction, and the operands.
#[derive(Debug)]
pub struct Frame {
    cell: Option<SpreadsheetCell>,
    program: Vec<Token>,
    next: usize,
    stack: Vec<Token>,
}

/// What a frame holds, as mathematics.
pub struct FrameView {
    pub cell: Option<SpreadsheetCell>,
    pub program: Seq<TokenView>,
    pub next: nat,
    pub stack: Seq<TokenView>,
}

impl View for Frame {
    type V = FrameView;

    closed spec fn view(&self) -> FrameView {
        FrameView {
            cell: self.cell,
            program: views(self.program@),
            next: self.next as nat,
            stack: views(self.stack@),
        }
    }
}

/// The views of a sequence of frames.
pub open spec fn frame_views(frames: Seq<Frame>) -> Seq<FrameView> {
    Seq::new(frames.len(), |i: int| frames[i]@)
}

/// The evaluation of a formula, between two steps.
#[derive(Debug)]
pub struct Evaluation {
    /// The formulas under evaluation: the one asked for, then each formula
    /// that the one before it reads.
    frames: Vec<Frame>,
    /// The values of the formulas evaluated on the way.
    values: Vec<CellValue>,
    /// What to make of the answer, where a question is open.
    waiting: Option<Pending>,
    /// The result, once there is one.
    outcome: Option<Result<Token, FormulaError>>,
}

/// What an evaluation holds, as mathematics.
pub struct EvaluationView {
    pub frames: Seq<FrameView>,
    pub values: Seq<CellValueView>,
    pub waiting: Option<Pending>,
    pub outcome: Option<Result<TokenView, FormulaError>>,
}

impl View for Evaluation {
    type V = EvaluationView;

    closed spec fn view(&self) -> EvaluationView {
        EvaluationView {
            frames: frame_views(self.frames@),
            values: value_views(self.values@),
            waiting: self.waiting,
            outcome: match self.outcome {
                Some(result) => Some(result_view(result)),
                None => None,
            },
        }
    }
}

/// What a step tells the host.
#[derive(Debug)]
pub enum Progress {
    /// Step again.
    Working,
    /// Compute this, and step again with the answer.
    Ask(Calculation),
    /// The evaluation is over: the value of the formula, or why it has none.
    Finished(Result<Token, FormulaError>),
}

/// What a step tells the host, as mathematics.
pub enum ProgressView {
    Working,
    Ask(CalculationView),
    Finished(Result<TokenView, FormulaError>),
}

impl View for Progress {
    type V = ProgressView;

    open spec fn view(&self) -> ProgressView {
        match self {
            Progress::Working => ProgressView::Working,
            Progress::Ask(calculation) => ProgressView::Ask(calculation@),
            Progress::Finished(result) => ProgressView::Finished(result_view(*result)),
        }
    }
}

/// An evaluation that is over, with `result`.
pub open spec fn finished(
    values: Seq<CellValueView>,
    result: Result<TokenView, FormulaError>,
) -> EvaluationView {
    EvaluationView { frames: Seq::empty(), values, waiting: None, outcome: Some(result) }
}

/// The evaluation of the formula `formula`, which stands in `cell` if it
/// stands in one, before its first step. A text that is no formula is over
/// at once.
pub open spec fn started(formula: Seq<char>, cell: Option<SpreadsheetCell>) -> EvaluationView {
    match lexed(formula) {
        None => finished(Seq::empty(), Err(FormulaError::Lex)),
        Some(tokens) => EvaluationView {
            frames: seq![
                FrameView { cell, program: postfix_of(tokens), next: 0, stack: Seq::empty() },
            ],
            values: Seq::empty(),
            waiting: None,
            outcome: None,
        },
    }
}

/// The evaluation of the text of a cell, before its first step: of the
/// formula after the `=` where it starts with one, else over at once with
/// the literal token.
pub open spec fn started_text(text: Seq<char>, cell: Option<SpreadsheetCell>) -> EvaluationView {
    if is_formula(text) {
        started(body_of(text), cell)
    } else {
        finished(Seq::empty(), Ok(literal_token(text)))
    }
}

/// `state` with `frame` in place of its innermost frame.
pub open spec fn with_top(state: EvaluationView, frame: FrameView) -> EvaluationView {
    EvaluationView {
        frames: state.frames.drop_last().push(frame),
        values: state.values,
        waiting: state.waiting,
        outcome: state.outcome,
    }
}

/// `state` with this to make of the next answer.
pub open spec fn with_waiting(state: EvaluationView, waiting: Option<Pending>) -> EvaluationView {
    EvaluationView {
        frames: state.frames,
        values: state.values,
        waiting,
        outcome: state.outcome,
    }
}

/// `frame` after an instruction that took `pops` operands and gave `push`.
pub open spec fn stepped(frame: FrameView, pops: nat, push: Option<TokenView>) -> FrameView {
    FrameView {
        cell: frame.cell,
        program: frame.program,
        next: frame.next + 1,
        stack: match push {
            Some(token) => frame.stack.take(frame.stack.len() - pops).push(token),
            None => frame.stack.take(frame.stack.len() - pops),
        },
    }
}

/// `frame` with `pops` operands taken off, at the same instruction.
pub open spec fn taken(frame: FrameView, pops: nat) -> FrameView {
    FrameView {
        cell: frame.cell,
        program: frame.program,
        next: frame.next,
        stack: frame.stack.take(frame.stack.len() - pops),
    }
}

/// The value of a frame whose program has run: the operand at the bottom of
/// its stack.
pub open spec fn frame_result(frame: FrameView) -> Result<TokenView, FormulaError> {
    if frame.stack.len() > 0 {
        Ok(frame.stack[0])
    } else {
        Err(FormulaError::NoValue)
    }
}

/// The step that ends the innermost formula with `result`: the evaluation is
/// over where it is the formula asked for; else its cell has its value.
pub open spec fn closed_frame(state: EvaluationView, result: Result<TokenView, FormulaError>) -> (
    EvaluationView,
    ProgressView,
) {
    if state.frames.len() <= 1 {
        (finished(state.values, result), ProgressView::Finished(result))
    } else {
        (
            EvaluationView {
                frames: state.frames.drop_last(),
                values: match state.frames.last().cell {
                    Some(cell) => state.values.push(CellValueView { cell, value: result }),
                    None => state.values,
                },
                waiting: None,
                outcome: None,
            },
            ProgressView::Working,
        )
    }
}

/// A formula under evaluation stands in `cell`.
pub open spec fn on_path(frames: Seq<FrameView>, cell: SpreadsheetCell) -> bool {
    exists|i: int| 0 <= i < frames.len() && (#[trigger] frames[i]).cell == Some(cell)
}

/// The step that turns to the formula in `cell`, whose value the innermost
/// formula needs: a cycle where that formula is under evaluation already,
/// which ends the evaluation; no value for the cell where its text is no
/// formula; else one more formula to evaluate.
pub open spec fn opened(state: EvaluationView, grid: Spreadsheet, cell: SpreadsheetCell) -> (
    EvaluationView,
    ProgressView,
) {
    if on_path(state.frames, cell) {
        (
            finished(state.values, Err(FormulaError::Cycle)),
            ProgressView::Finished(Err(FormulaError::Cycle)),
        )
    } else {
        match lexed(body_of(grid.text_at(cell))) {
            None => (
                EvaluationView {
                    frames: state.frames,
                    values: state.values.push(
                        CellValueView { cell, value: Err(FormulaError::Lex) },
                    ),
                    waiting: None,
                    outcome: None,
                },
                ProgressView::Working,
            ),
            Some(tokens) => (
                EvaluationView {
                    frames: state.frames.push(
                        FrameView {
                            cell: Some(cell),
                            program: postfix_of(tokens),
                            next: 0,
                            stack: Seq::empty(),
                        },
                    ),
                    values: state.values,
                    waiting: None,
                    outcome: None,
                },
                ProgressView::Working,
            ),
        }
    }
}

/// The next instruction of the innermost formula is a call of `RAND`, the
/// one instruction that a step draws a random number for.
pub open spec fn draws(state: EvaluationView) -> bool {
    state.frames.len() > 0 && state.frames.last().next < state.frames.last().program.len()
        && state.frames.last().program[state.frames.last().next as int].kind
        == TokenType::Function && function_named(
        state.frames.last().program[state.frames.last().next as int].content,
    ) == Some(FormulaFunction::Rand)
}

/// One step of the evaluation: the next state, and what the host is told.
///
/// An evaluation that is over stays so and tells its result. Where a
/// question is open, the answer makes a token, which goes on the stack; an
/// answer of the wrong kind, none where one is due, or one where none is due
/// ends the evaluation. Otherwise the innermost formula goes on: it ends
/// where its program has run or its instruction cannot be carried out, asks
/// where the instruction needs arithmetic, turns to another cell's formula
/// where it needs that cell's value, and else carries the instruction out.
pub open spec fn advanced(
    state: EvaluationView,
    grid: Spreadsheet,
    answer: Option<AnswerView>,
    draw: u32,
) -> (EvaluationView, ProgressView) {
    if state.frames.len() == 0 {
        (
            state,
            ProgressView::Finished(
                match state.outcome {
                    Some(result) => result,
                    None => Err(FormulaError::NoValue),
                },
            ),
        )
    } else if state.waiting is Some {
        match answer {
            Some(given) => match answered(state.waiting->0, given) {
                Some(token) => if state.frames.last().next >= state.frames.last().program.len() {
                    (
                        finished(state.values, Err(FormulaError::Protocol)),
                        ProgressView::Finished(Err(FormulaError::Protocol)),
                    )
                } else {
                    (
                        with_waiting(
                            with_top(state, stepped(state.frames.last(), 0, Some(token))),
                            None,
                        ),
                        ProgressView::Working,
                    )
                },
                None => (
                    finished(state.values, Err(FormulaError::Protocol)),
                    ProgressView::Finished(Err(FormulaError::Protocol)),
                ),
            },
            None => (
                finished(state.values, Err(FormulaError::Protocol)),
                ProgressView::Finished(Err(FormulaError::Protocol)),
            ),
        }
    } else if answer is Some {
        (
            finished(state.values, Err(FormulaError::Protocol)),
            ProgressView::Finished(Err(FormulaError::Protocol)),
        )
    } else if state.frames.last().next >= state.frames.last().program.len() {
        closed_frame(state, frame_result(state.frames.last()))
    } else {
        match planned(
            state.frames.last().program[state.frames.last().next as int],
            state.frames.last().stack,
            grid,
            state.values,
            draw,
        ) {
            PlanView::Apply { pops, push } => (
                with_top(state, stepped(state.frames.last(), pops, push)),
                ProgressView::Working,
            ),
            PlanView::Ask { pops, calculation, pending } => (
                with_waiting(with_top(state, taken(state.frames.last(), pops)), Some(pending)),
                ProgressView::Ask(calculation),
            ),
            PlanView::Need(cell) => opened(state, grid, cell),
            PlanView::Fail(error) => closed_frame(state, Err(error)),
        }
    }
}

/// The view of an answer that may be missing.
pub open spec fn answer_view(answer: Option<Answer>) -> Option<AnswerView> {
    match answer {
        Some(given) => Some(given@),
        None => None,
    }
}

proof fn lemma_value_views_push(values: Seq<CellValue>, value: CellValue)
    ensures
        value_views(values.push(value)) == value_views(values).push(value@),
{
    assert(value_views(values.push(value)) =~= value_views(values).push(value@));
}

proof fn lemma_frame_views_push(frames: Seq<Frame>, frame: Frame)
    ensures
        frame_views(frames.push(frame)) == frame_views(frames).push(frame@),
{
    assert(frame_views(frames.push(frame)) =~= frame_views(frames).push(frame@));
}

impl Evaluation {
    /// The evaluation of the text of a cell, which stands in `cell` if it
    /// stands in one, before its first step.
    pub fn of_text(text: &str, cell: Option<SpreadsheetCell>) -> (evaluation: Evaluation)
        ensures
            evaluation@ == started_text(text@, cell),
    {
        let chars = chars_of(text);
        if chars.len() > 0 && chars[0] == '=' {
            let tail = string_from(&chars, 1, chars.len());
            assert(tail@ =~= body_of(text@));
            Evaluation::of_formula(tail.as_str(), cell)
        } else {
            let evaluation = Evaluation {
                frames: Vec::new(),
                values: Vec::new(),
                waiting: None,
                outcome: Some(Ok(literal(&chars))),
            };
            assert(evaluation@.frames =~= Seq::<FrameView>::empty());
            assert(evaluation@.values =~= Seq::<CellValueView>::empty());
            evaluation
        }
    }

    /// The evaluation of a formula, given without its `=`, which stands in
    /// `cell` if it stands in one, before its first step.
    pub fn of_formula(formula: &str, cell: Option<SpreadsheetCell>) -> (evaluation: Evaluation)
        ensures
            evaluation@ == started(formula@, cell),
    {
        match parse_formula(formula) {
            Ok(tokens) => {
                let program = reorder(&tokens);
                let frame = Frame { cell, program, next: 0, stack: Vec::new() };
                assert(frame@.stack =~= Seq::<TokenView>::empty());
                let mut frames: Vec<Frame> = Vec::new();
                frames.push(frame);
                let evaluation = Evaluation {
                    frames,
                    values: Vec::new(),
                    waiting: None,
                    outcome: None,
                };
                assert(evaluation@.frames =~= seq![frame@]);
                assert(evaluation@.values =~= Seq::<CellValueView>::empty());
                evaluation
            },
            Err(_) => {
                let evaluation = Evaluation {
                    frames: Vec::new(),
                    values: Vec::new(),
                    waiting: None,
                    outcome: Some(Err(FormulaError::Lex)),
                };
                assert(evaluation@.frames =~= Seq::<FrameView>::empty());
                assert(evaluation@.values =~= Seq::<CellValueView>::empty());
                evaluation
            },
        }
    }

    /// Whether the evaluation is over.
    pub fn is_finished(&self) -> (over: bool)
        ensures
            over == (self@.frames.len() == 0),
    {
        self.frames.len() == 0
    }

    /// Ends the evaluation with `error`.
    fn abort(&mut self, error: FormulaError) -> (progress: Progress)
        ensures
            final(self)@ == finished(old(self)@.values, Err(error)),
            progress@ == ProgressView::Finished(Err(error)),
    {
        self.frames = Vec::new();
        self.waiting = None;
        self.outcome = Some(Err(error));
        assert(self@.frames =~= Seq::<FrameView>::empty());
        Progress::Finished(Err(error))
    }

    /// Ends the innermost formula with `result`.
    fn close_frame(&mut self, result: Result<Token, FormulaError>) -> (progress: Progress)
        requires
            old(self).frames@.len() > 0,
        ensures
            (final(self)@, progress@) == closed_frame(old(self)@, result_view(result)),
    {
        let ghost before = self@;
        let ghost frames = self.frames@;
        let frame = self.frames.pop().unwrap();
        assert(before.frames.last() == frame@);
        assert(frame_views(self.frames@) =~= before.frames.drop_last());
        self.waiting = None;
        if self.frames.len() == 0 {
            let copy = copy_result(&result);
            self.outcome = Some(result);
            assert(self@.frames =~= Seq::<FrameView>::empty());
            Progress::Finished(copy)
        } else {
            self.outcome = None;
            match frame.cell {
                Some(cell) => {
                    let value = CellValue { cell, value: result };
                    proof {
                        lemma_value_views_push(self.values@, value);
                    }
                    self.values.push(value);
                },
                None => {},
            }
            Progress::Working
        }
    }

    /// Turns to the formula in `cell`.
    fn open_frame(&mut self, grid: &Spreadsheet, cell: SpreadsheetCell) -> (progress: Progress)
        ensures
            (final(self)@, progress@) == opened(old(self)@, *grid, cell),
    {
        let ghost before = self@;
        let mut i: usize = 0;
        while i < self.frames.len()
            invariant
                i <= self.frames.len(),
                self@ == before,
                *self == *old(self),
                forall|k: int| 0 <= k < i ==> (#[trigger] before.frames[k]).cell != Some(cell),
            decreases self.frames.len() - i,
        {
            assert(before.frames[i as int] == self.frames@[i as int]@);
            let same = match self.frames[i].cell {
                Some(other) => other == cell,
                None => false,
            };
            if same {
                return self.abort(FormulaError::Cycle);
            }
            i += 1;
        }
        let chars = chars_of(grid.get_cell(&cell));
        let from: usize = if chars.len() > 0 {
            1
        } else {
            0
        };
        let tail = string_from(&chars, from, chars.len());
        assert(tail@ =~= body_of(grid.text_at(cell)));
        self.waiting = None;
        self.outcome = None;
        match parse_formula(tail.as_str()) {
            Ok(tokens) => {
                let program = reorder(&tokens);
                let frame = Frame { cell: Some(cell), program, next: 0, stack: Vec::new() };
                assert(frame@.stack =~= Seq::<TokenView>::empty());
                proof {
                    lemma_frame_views_push(self.frames@, frame);
                }
                self.frames.push(frame);
            },
            Err(_) => {
                let value = CellValue { cell, value: Err(FormulaError::Lex) };
                proof {
                    lemma_value_views_push(self.values@, value);
                }
                self.values.push(value);
            },
        }
        Progress::Working
    }

    /// One step of the evaluation, with `draw` for the random number that
    /// `RAND` turns into its result.
    ///
    /// `grid` must be the same at every step of one evaluation.
    pub fn advance_with(&mut self, grid: &Spreadsheet, answer: Option<Answer>, draw: u32) -> (progress:
        Progress)
        ensures
            (final(self)@, progress@) == advanced(old(self)@, *grid, answer_view(answer), draw),
            progress@ matches ProgressView::Ask(calculation) ==> well_posed(calculation),
    {
        let ghost before = self@;
        proof {
            lemma_questions_are_well_posed(before, *grid, answer_view(answer), draw);
        }
        if self.frames.len() == 0 {
            return Progress::Finished(
                match &self.outcome {
                    Some(result) => copy_result(result),
                    None => Err(FormulaError::NoValue),
                },
            );
        }
        assert(before.frames.last() == self.frames@[self.frames.len() - 1]@);
        if let Some(pending) = self.waiting {
            let at_end = self.frames[self.frames.len() - 1].next >= self.frames[self.frames.len()
                - 1].program.len();
            return match answer_token(pending, answer) {
                Some(token) => {
                    if at_end {
                        self.abort(FormulaError::Protocol)
                    } else {
                        let mut frame = self.frames.pop().unwrap();
                        assert(frame_views(self.frames@) =~= before.frames.drop_last());
                        proof {
                            lemma_views_push(frame.stack@, token);
                            assert(frame@.stack.take(frame@.stack.len() as int) =~= frame@.stack);
                        }
                        frame.stack.push(token);
                        frame.next = frame.next + 1;
                        proof {
                            lemma_frame_views_push(self.frames@, frame);
                        }
                        self.frames.push(frame);
                        self.waiting = None;
                        Progress::Working
                    }
                },
                None => self.abort(FormulaError::Protocol),
            };
        }
        if answer.is_some() {
            return self.abort(FormulaError::Protocol);
        }
        let last = self.frames.len() - 1;
        if self.frames[last].next >= self.frames[last].program.len() {
            let result = if self.frames[last].stack.len() > 0 {
                assert(before.frames.last().stack[0] == self.frames@[last as int].stack@[0]@);
                Ok(self.frames[last].stack[0].clone())
            } else {
                Err(FormulaError::NoValue)
            };
            return self.close_frame(result);
        }
        let step = plan(
            &self.frames[last].program[self.frames[last].next],
            &self.frames[last].stack,
            grid,
            &self.values,
            draw,
        );
        assert(before.frames.last().program[before.frames.last().next as int]
            == self.frames@[last as int].program@[self.frames@[last as int].next as int]@);
        match step {
            Plan::Apply { pops, push } => {
                let mut frame = self.frames.pop().unwrap();
                assert(frame_views(self.frames@) =~= before.frames.drop_last());
                let ghost stack = frame@.stack;
                let keep = frame.stack.len() - pops;
                frame.stack.truncate(keep);
                assert(views(frame.stack@) =~= stack.take(stack.len() - pops));
                if let Some(token) = push {
                    proof {
                        lemma_views_push(frame.stack@, token);
                    }
                    frame.stack.push(token);
                }
                frame.next = frame.next + 1;
                proof {
                    lemma_frame_views_push(self.frames@, frame);
                }
                self.frames.push(frame);
                Progress::Working
            },
            Plan::Ask { pops, calculation, pending } => {
                let mut frame = self.frames.pop().unwrap();
                assert(frame_views(self.frames@) =~= before.frames.drop_last());
                let ghost stack = frame@.stack;
                let keep = frame.stack.len() - pops;
                frame.stack.truncate(keep);
                assert(views(frame.stack@) =~= stack.take(stack.len() - pops));
                proof {
                    lemma_frame_views_push(self.frames@, frame);
                }
                self.frames.push(frame);
                self.waiting = Some(pending);
                Progress::Ask(calculation)
            },
            Plan::Need(cell) => self.open_frame(grid, cell),
            Plan::Fail(error) => self.close_frame(Err(error)),
        }
    }

    /// One step of the evaluation: `answer` is the answer to the question
    /// that the step before asked, if it asked one. Where the step evaluates
    /// `RAND`, it draws the number.
    ///
    /// `grid` must be the same at every step of one evaluation.
    pub fn advance(&mut self, grid: &Spreadsheet, answer: Option<Answer>) -> (progress: Progress)
        ensures
            exists|draw: u32|
                (final(self)@, progress@) == #[trigger] advanced(
                    old(self)@,
                    *grid,
                    answer_view(answer),
                    draw,
                ),
            progress@ matches ProgressView::Ask(calculation) ==> well_posed(calculation),
    {
        let draw = if self.draws_next() {
            random_word()
        } else {
            0
        };
        self.advance_with(grid, answer, draw)
    }

    /// Whether the next instruction is a call of `RAND`.
    fn draws_next(&self) -> (yes: bool)
        ensures
            yes == draws(self@),
    {
        if self.frames.len() == 0 {
            return false;
        }
        let frame = &self.frames[self.frames.len() - 1];
        assert(self@.frames.last() == frame@);
        if frame.next >= frame.program.len() {
            return false;
        }
        let instruction = &frame.program[frame.next];
        assert(frame@.program[frame@.next as int] == instruction@);
        match instruction.token_type {
            TokenType::Function => get_func(instruction.content.as_str()) == Some(
                FormulaFunction::Rand,
            ),
            _ => false,
        }
    }
}

/// Whatever a step asks of the host is well posed: the host can read every
/// text of the calculation as a number.
pub proof fn lemma_questions_are_well_posed(
    state: EvaluationView,
    grid: Spreadsheet,
    answer: Option<AnswerView>,
    draw: u32,
)
    ensures
        advanced(state, grid, answer, draw).1 matches ProgressView::Ask(calculation)
            ==> well_posed(calculation),
{
    if state.frames.len() > 0 && state.waiting is None && answer is None && state.frames.last().next
        < state.frames.last().program.len() {
        lemma_planned_is_well_posed(
            state.frames.last().program[state.frames.last().next as int],
            state.frames.last().stack,
            grid,
            state.values,
            draw,
        );
    }
}

} // verus!
