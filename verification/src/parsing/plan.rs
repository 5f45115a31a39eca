//! The plan of a run: the arithmetic that gives every formula its value,
//! step by step, in the order in which the formulas are evaluated.
//!
//! The steps work on a stack of numbers and on a store that holds the
//! result of each formula that has been evaluated. Numbers are floating
//! point: the library lays the steps out and leaves carrying them out to
//! its caller.

use crate::address::CellIndex;
use crate::parsing::grammar::{ParseError, ParseErrorView};
use crate::scanning::lexer::Builtin;
use crate::scanning::token::{LexError, LexErrorView};
use rand::Rng;
use vstd::prelude::*;

verus! {

/// An operation on the numbers that lie on top of the stack. Each takes its
/// operands off the stack, the last one first, and puts its result there.
#[derive(Debug, Clone, Copy, PartialEq, Eq, Structural)]
pub enum Operation {
    /// One operand: its negation.
    Negate,
    /// Two operands `a`, `b`: `a + b`.
    Add,
    /// Two operands `a`, `b`: `a - b`.
    Subtract,
    /// Two operands `a`, `b`: `a * b`.
    Multiply,
    /// Two operands `a`, `b`: `a / b`. Division by zero is no error: it
    /// gives an infinity or no number.
    Divide,
    /// Two operands `a`, `b`: `b` if `b > a`, else `a`.
    Greater,
    /// Two operands `a`, `b`: `b` if `b < a`, else `a`.
    Less,
    /// Three operands `c`, `a`, `b`: `a` if `c` is not zero, else `b`.
    Select,
    /// Two operands `a`, `b`: a number drawn evenly from `a` up to, not
    /// including, `b`. Where `a >= b` the run fails with a range error.
    Between,
}

/// One step of a plan.
#[derive(Debug)]
pub enum Step {
    /// Puts on the stack the number that the text writes, or zero if it
    /// writes none.
    Number(String),
    /// Puts on the stack the number held, which was drawn at random.
    Random(i32),
    /// Puts on the stack the count held.
    Count(usize),
    /// Puts on the stack the stored result of a cell.
    Recall(CellIndex),
    /// Takes the top of the stack and stores it as the result of a cell.
    Store(CellIndex),
    Apply(Operation),
}

/// A step without the number that it drew: nothing is known of that number.
pub enum StepView {
    Number(Seq<char>),
    Random,
    Count(nat),
    Recall(CellIndex),
    Store(CellIndex),
    Apply(Operation),
}

impl View for Step {
    type V = StepView;

    open spec fn view(&self) -> StepView {
        match self {
            Step::Number(text) => StepView::Number(text@),
            Step::Random(_) => StepView::Random,
            Step::Count(count) => StepView::Count(*count as nat),
            Step::Recall(index) => StepView::Recall(*index),
            Step::Store(index) => StepView::Store(*index),
            Step::Apply(operation) => StepView::Apply(*operation),
        }
    }
}

impl DeepView for Step {
    type V = StepView;

    open spec fn deep_view(&self) -> StepView {
        self@
    }
}

/// The steps laid out so far, and the cells whose formula has been
/// evaluated by them, in the order of evaluation.
#[derive(Debug)]
pub struct Plan {
    pub steps: Vec<Step>,
    pub stored: Vec<CellIndex>,
}

pub struct PlanView {
    pub steps: Seq<StepView>,
    pub stored: Seq<CellIndex>,
}

impl PlanView {
    pub open spec fn empty() -> PlanView {
        PlanView { steps: Seq::empty(), stored: Seq::empty() }
    }

    /// The plan with one more step.
    pub open spec fn with(self, step: StepView) -> PlanView {
        PlanView { steps: self.steps.push(step), stored: self.stored }
    }

    /// The plan with the step that stores the result of `index`, and with
    /// `index` among the cells that are evaluated.
    pub open spec fn settled(self, index: CellIndex) -> PlanView {
        PlanView {
            steps: self.steps.push(StepView::Store(index)),
            stored: self.stored.push(index),
        }
    }
}

impl View for Plan {
    type V = PlanView;

    open spec fn view(&self) -> PlanView {
        PlanView { steps: self.steps.deep_view(), stored: self.stored@ }
    }
}

impl Plan {
    pub fn new() -> (plan: Self)
        ensures
            plan@ == PlanView::empty(),
    {
        let plan = Plan { steps: Vec::new(), stored: Vec::new() };
        assert(plan@.steps =~= Seq::empty());
        plan
    }

    pub fn push(&mut self, step: Step)
        ensures
            final(self)@ == old(self)@.with(step@),
    {
        self.steps.push(step);
        assert(self@.steps =~= old(self)@.steps.push(step@));
    }

    /// Adds the step that stores the result of `index`, and notes `index`
    /// as evaluated.
    pub fn settle(&mut self, index: CellIndex)
        ensures
            final(self)@ == old(self)@.settled(index),
    {
        self.steps.push(Step::Store(index));
        self.stored.push(index);
        assert(self@.steps =~= old(self)@.steps.push(StepView::Store(index)));
    }

    /// Whether the formula of `index` has been evaluated.
    pub fn is_stored(&self, index: &CellIndex) -> (yes: bool)
        ensures
            yes == self@.stored.contains(*index),
    {
        holds(&self.stored, index)
    }
}

/// The number of operands that an operation takes off the stack.
pub open spec fn operands(operation: Operation) -> nat {
    match operation {
        Operation::Negate => 1,
        Operation::Select => 3,
        _ => 2,
    }
}

/// What carrying out steps leaves, as far as the steps themselves depend on
/// it: the number of values on the stack, and the cells whose result is
/// stored.
pub struct Machine {
    pub depth: nat,
    pub stored: Set<CellIndex>,
}

/// The machine after one more step, if the step can be carried out: an
/// operation needs its operands on the stack, a result that is recalled
/// must be stored, and a result is stored once, from the top of the stack.
pub open spec fn carry(machine: Option<Machine>, step: StepView) -> Option<Machine> {
    match machine {
        None => None,
        Some(before) => match step {
            StepView::Number(_) | StepView::Random | StepView::Count(_) => Some(
                Machine { depth: before.depth + 1, stored: before.stored },
            ),
            StepView::Recall(index) => if before.stored.contains(index) {
                Some(Machine { depth: before.depth + 1, stored: before.stored })
            } else {
                None
            },
            StepView::Store(index) => if before.depth >= 1 && !before.stored.contains(index) {
                Some(
                    Machine {
                        depth: (before.depth - 1) as nat,
                        stored: before.stored.insert(index),
                    },
                )
            } else {
                None
            },
            StepView::Apply(operation) => if before.depth >= operands(operation) {
                Some(
                    Machine {
                        depth: (before.depth - operands(operation) + 1) as nat,
                        stored: before.stored,
                    },
                )
            } else {
                None
            },
        },
    }
}

/// The machine after the steps, begun with an empty stack and nothing
/// stored, if every step can be carried out.
pub open spec fn carried(steps: Seq<StepView>) -> Option<Machine>
    decreases steps.len(),
{
    if steps.len() == 0 {
        Some(Machine { depth: 0, stored: Set::empty() })
    } else {
        carry(carried(steps.drop_last()), steps.last())
    }
}

impl PlanView {
    /// The steps can be carried out, and the cells that they store are the
    /// ones noted as evaluated, each once.
    pub open spec fn sound(self) -> bool {
        &&& carried(self.steps) matches Some(machine) && machine.stored =~= self.stored.to_set()
        &&& self.stored.no_duplicates()
    }

    /// The number of values that the steps leave on the stack.
    pub open spec fn depth(self) -> nat {
        carried(self.steps)->0.depth
    }
}

/// Whether `index` is among `cells`.
pub fn holds(cells: &Vec<CellIndex>, index: &CellIndex) -> (yes: bool)
    ensures
        yes == cells@.contains(*index),
{
    let mut i: usize = 0;
    while i < cells.len()
        invariant
            i <= cells.len(),
            forall|k: int| 0 <= k < i ==> cells[k] != *index,
        decreases cells.len() - i,
    {
        if cells[i].row == index.row && cells[i].column == index.column {
            return true;
        }
        i += 1;
    }
    false
}

/// Why a formula has no value.
#[derive(Debug)]
pub enum EvalError {
    /// The source of a formula is no sequence of tokens.
    Lex(LexError),
    /// The tokens of a formula are no expression.
    Parse(ParseError),
    /// A reference to a cell that the table does not have.
    Reference(CellIndex),
    /// A formula that needs its own value: the cells that were being
    /// evaluated, outermost first, and at the end the one among them that
    /// was referred to again.
    Cycle(Vec<CellIndex>),
    /// A function called with a number of arguments that it does not take.
    Arity(Builtin, usize),
    /// A range that is empty or upside down.
    Range,
    /// Something that is no number where a number is needed.
    TypeMismatch,
    /// A function or an operator, by its name, that is not supported.
    NotImplemented(String),
}

pub enum EvalErrorView {
    Lex(LexErrorView),
    Parse(ParseErrorView),
    Reference(CellIndex),
    Cycle(Seq<CellIndex>),
    Arity(Builtin, nat),
    Range,
    TypeMismatch,
    NotImplemented(Seq<char>),
}

impl View for EvalError {
    type V = EvalErrorView;

    open spec fn view(&self) -> EvalErrorView {
        match self {
            EvalError::Lex(error) => EvalErrorView::Lex(error@),
            EvalError::Parse(error) => EvalErrorView::Parse(error@),
            EvalError::Reference(index) => EvalErrorView::Reference(*index),
            EvalError::Cycle(path) => EvalErrorView::Cycle(path@),
            EvalError::Arity(function, given) => EvalErrorView::Arity(*function, *given as nat),
            EvalError::Range => EvalErrorView::Range,
            EvalError::TypeMismatch => EvalErrorView::TypeMismatch,
            EvalError::NotImplemented(name) => EvalErrorView::NotImplemented(name@),
        }
    }
}

/// `rand::thread_rng().gen::<i32>()`: a 32-bit integer from the thread's
/// random number generator. Every `i32` can come out, so nothing is said of
/// the result. The generator is seeded from the operating system on the
/// thread's first draw, and panics there if the system gives no seed.
#[verifier::external_body]
pub(crate) fn draw() -> i32 {
    rand::thread_rng().gen::<i32>()
}

} // verus!
