//! The evaluator: a walk over the tree that takes every decision of an
//! evaluation and leaves the arithmetic to its caller.
//!
//! [`evaluate`] walks until it needs the result of a computation on binary64
//! numbers. It then hands the computation out as a [`Request`], together
//! with the [`Evaluation`] that goes on once the result is there:
//!
//! ```text
//! let mut progress = evaluate(tree, &mut env);
//! loop {
//!     match progress {
//!         Progress::Finished(result) => break result,
//!         Progress::Suspended(request, evaluation) => {
//!             progress = evaluation.resume(&mut env, compute(request));
//!         }
//!     }
//! }
//! ```
//!
//! The contracts are stated over the outcome of an evaluation: what it will
//! end in, given an arithmetic. At the start the outcome is the meaning of
//! the statement. Going on with an answer keeps the outcome, for every
//! arithmetic that has this answer to the request. At the end the outcome is
//! the result and the bindings as they are. So a loop like the one above ends
//! with the meaning of the statement under any arithmetic that gives each
//! request the answer that `compute` gave. It does end: every call leaves
//! fewer steps to take than were left before.

use crate::ast::{Expr, ExprView, Opcode};
use crate::environment::Environment;
use crate::factorial::factorial;
use crate::semantics::{
    binary, call, factorial_of, function_named, semantics, Arithmetic, Bindings, Function,
    Request, RequestView, RuntimeError, Verdict,
};
use crate::value::Value;
use vstd::prelude::*;

verus! {

/// What is to be done with the value of the operand under evaluation.
enum Frame {
    /// Bind it to the name.
    Bind(String),
    /// It is the left operand; the right one is still a tree.
    LeftOf(Opcode, Expr),
    /// It is the right operand; the left one has this value.
    RightOf(Opcode, Value),
    /// Negate it.
    Negate,
    /// Take its factorial.
    Factorial,
    /// Call the function of this name on it.
    Apply(String),
}

/// Where the walk stands.
enum Control {
    /// Before a tree that is to be evaluated.
    Eval(Expr),
    /// Behind an operand that had this value.
    Return(Value),
}

/// A result as the semantics speaks of it.
pub open spec fn verdict(r: Result<Value, RuntimeError>) -> Verdict {
    match r {
        Ok(v) => Ok(v),
        Err(e) => Err(e@),
    }
}

/// What a frame makes of the value of its operand.
spec fn apply(frame: Frame, v: Value, env: Bindings, arith: Arithmetic) -> (Verdict, Bindings) {
    match frame {
        Frame::Bind(name) => (Ok(v), env.insert(name@, v)),
        Frame::LeftOf(op, right) => match semantics(right@, env, arith) {
            (Ok(r), after) => (binary(op, v, r, arith), after),
            failed => failed,
        },
        Frame::RightOf(op, left) => (binary(op, left, v, arith), env),
        Frame::Negate => (Ok(v.negation()), env),
        Frame::Factorial => (factorial_of(v, arith), env),
        Frame::Apply(name) => (call(name@, v, arith), env),
    }
}

/// What becomes of the value of the innermost operand: it goes through the
/// frames, the last of them first, until one of them fails or none is left.
spec fn deliver(stack: Seq<Frame>, v: Value, env: Bindings, arith: Arithmetic) -> (
    Verdict,
    Bindings,
)
    decreases stack.len(),
{
    if stack.len() == 0 {
        (Ok(v), env)
    } else {
        match apply(stack.last(), v, env, arith) {
            (Ok(next), after) => deliver(stack.drop_last(), next, after, arith),
            failed => failed,
        }
    }
}

/// What the walk will end in from where it stands.
spec fn meaning(control: Control, stack: Seq<Frame>, env: Bindings, arith: Arithmetic) -> (
    Verdict,
    Bindings,
) {
    match control {
        Control::Eval(tree) => match semantics(tree@, env, arith) {
            (Ok(v), after) => deliver(stack, v, after, arith),
            failed => failed,
        },
        Control::Return(v) => deliver(stack, v, env, arith),
    }
}

/// A bound on the number of steps that the evaluation of a tree takes.
pub open spec fn cost(expr: ExprView) -> nat
    decreases expr,
{
    match expr {
        ExprView::Number(_) => 3,
        ExprView::Var(_) => 2,
        ExprView::Assign(_, value) => cost(*value) + 2,
        ExprView::Op(left, _, right) => cost(*left) + cost(*right) + 3,
        ExprView::Neg(operand) => cost(*operand) + 2,
        ExprView::Factorial(operand) => cost(*operand) + 3,
        ExprView::Call(_, argument) => cost(*argument) + 3,
    }
}

spec fn weight(frame: Frame) -> nat {
    match frame {
        Frame::Bind(_) => 1,
        Frame::LeftOf(_, right) => cost(right@) + 2,
        Frame::RightOf(_, _) => 2,
        Frame::Negate => 1,
        Frame::Factorial => 2,
        Frame::Apply(_) => 2,
    }
}

spec fn load(stack: Seq<Frame>) -> nat
    decreases stack.len(),
{
    if stack.len() == 0 {
        0
    } else {
        load(stack.drop_last()) + weight(stack.last())
    }
}

spec fn rank(control: Control, stack: Seq<Frame>) -> nat {
    match control {
        Control::Eval(tree) => cost(tree@) + load(stack),
        Control::Return(_) => 1 + load(stack),
    }
}

/// An evaluation that waits for the result of a computation.
pub struct Evaluation {
    stack: Vec<Frame>,
    request: Ghost<RequestView>,
}

/// How far an evaluation has come.
pub enum Progress {
    /// It is over, with this result.
    Finished(Result<Value, RuntimeError>),
    /// It needs the result of this computation to go on.
    Suspended(Request, Evaluation),
}

impl Evaluation {
    /// The computation whose result the evaluation waits for.
    pub closed spec fn pending(&self) -> RequestView {
        self.request@
    }

    /// What the evaluation will end in, from the bindings `env`, if every
    /// computation has the result that `arith` gives it.
    pub closed spec fn outcome(&self, env: Bindings, arith: Arithmetic) -> (Verdict, Bindings) {
        deliver(self.stack@, arith(self.request@), env, arith)
    }

    /// A bound on the number of steps that the evaluation still takes.
    pub closed spec fn remaining(&self) -> nat {
        2 + load(self.stack@)
    }

    /// Goes on with `answer` as the result of the pending computation.
    ///
    /// What the evaluation will end in does not change by going on, and the
    /// steps that remain become fewer.
    pub fn resume(self, env: &mut Environment, answer: Value) -> (p: Progress)
        ensures
            p.consistent(),
            p.remaining() < self.remaining(),
            forall|arith: Arithmetic|
                arith(self.pending()) == answer ==> #[trigger] p.outcome(final(env)@, arith)
                    == self.outcome(old(env)@, arith),
    {
        let ghost before = env@;
        let p = run(Control::Return(answer), self.stack, env);
        proof {
            assert forall|arith: Arithmetic| arith(self.pending()) == answer implies #[trigger]
                p.outcome(env@, arith) == self.outcome(before, arith) by {
                assert(p.outcome(env@, arith) == meaning(
                    Control::Return(answer),
                    self.stack@,
                    before,
                    arith,
                ));
            }
        }
        p
    }
}

impl Progress {
    /// The request that is handed out is the one that the evaluation waits for.
    pub open spec fn consistent(&self) -> bool {
        self matches Progress::Suspended(request, evaluation) ==> evaluation.pending()
            == request@
    }

    /// What the evaluation ends in: its result and the bindings `env`, if it
    /// is over; else see [`Evaluation::outcome`].
    pub open spec fn outcome(&self, env: Bindings, arith: Arithmetic) -> (Verdict, Bindings) {
        match self {
            Progress::Finished(r) => (verdict(*r), env),
            Progress::Suspended(_, evaluation) => evaluation.outcome(env, arith),
        }
    }

    /// A bound on the number of steps that are still to be taken.
    pub open spec fn remaining(&self) -> nat {
        match self {
            Progress::Finished(_) => 0,
            Progress::Suspended(_, evaluation) => evaluation.remaining(),
        }
    }
}

/// The function of a name.
pub fn function_of(name: &String) -> (r: Option<Function>)
    ensures
        r == function_named(name@),
{
    if *name == String::from_str("sin") {
        Some(Function::Sin)
    } else if *name == String::from_str("cos") {
        Some(Function::Cos)
    } else if *name == String::from_str("sqrt") {
        Some(Function::Sqrt)
    } else if *name == String::from_str("ln") {
        Some(Function::Ln)
    } else {
        None
    }
}

fn suspend(request: Request, stack: Vec<Frame>) -> (p: Progress)
    ensures
        p.consistent(),
        p.remaining() == 2 + load(stack@),
        forall|env: Bindings, arith: Arithmetic| #[trigger]
            p.outcome(env, arith) == deliver(stack@, arith(request@), env, arith),
{
    let ghost view = request@;
    Progress::Suspended(request, Evaluation { stack, request: Ghost(view) })
}

/// The result of one step of the walk.
enum Step {
    /// The walk goes on from here.
    Continue(Control, Vec<Frame>),
    /// The walk stops here.
    Stop(Progress),
}

/// A step goes towards the end, and what the walk will end in is after the
/// step what it was before.
spec fn sound(step: Step, control: Control, stack: Seq<Frame>, before: Bindings, after: Bindings) -> bool {
    match step {
        Step::Continue(next, frames) => {
            &&& rank(next, frames@) < rank(control, stack)
            &&& forall|arith: Arithmetic|
                meaning(next, frames@, after, arith) == #[trigger] meaning(
                    control,
                    stack,
                    before,
                    arith,
                )
        },
        Step::Stop(p) => {
            &&& p.consistent()
            &&& p.remaining() < rank(control, stack)
            &&& forall|arith: Arithmetic|
                p.outcome(after, arith) == #[trigger] meaning(control, stack, before, arith)
        },
    }
}

proof fn lemma_push(stack: Seq<Frame>, frame: Frame)
    ensures
        stack.push(frame).drop_last() == stack,
        stack.push(frame).last() == frame,
        load(stack.push(frame)) == load(stack) + weight(frame),
{
    assert(stack.push(frame).drop_last() =~= stack);
}

fn descend(stack: Vec<Frame>, frame: Frame, operand: Expr) -> (r: Step)
    ensures
        r matches Step::Continue(next, frames) && next == Control::Eval(operand) && frames@
            == stack@.push(frame),
{
    let mut stack = stack;
    stack.push(frame);
    Step::Continue(Control::Eval(operand), stack)
}

/// The step into a tree.
fn enter(tree: Expr, stack: Vec<Frame>, env: &Environment) -> (r: Step)
    ensures
        sound(r, Control::Eval(tree), stack@, env@, env@),
{
    let ghost old_stack = stack@;
    match tree {
        Expr::Number(literal) => {
            Step::Stop(suspend(Request::Literal(literal), stack))
        },
        Expr::Var(name) => match env.get(&name) {
            Some(v) => Step::Continue(Control::Return(v), stack),
            None => Step::Stop(Progress::Finished(Err(RuntimeError::UndeclaredVariable(name)))),
        },
        Expr::Assign(name, value) => {
            proof {
                lemma_push(old_stack, Frame::Bind(name));
            }
            descend(stack, Frame::Bind(name), *value)
        },
        Expr::Op(left, op, right) => {
            proof {
                lemma_push(old_stack, Frame::LeftOf(op, *right));
            }
            descend(stack, Frame::LeftOf(op, *right), *left)
        },
        Expr::Neg(operand) => {
            proof {
                lemma_push(old_stack, Frame::Negate);
            }
            descend(stack, Frame::Negate, *operand)
        },
        Expr::Factorial(operand) => {
            proof {
                lemma_push(old_stack, Frame::Factorial);
            }
            descend(stack, Frame::Factorial, *operand)
        },
        Expr::Call(name, argument) => {
            proof {
                lemma_push(old_stack, Frame::Apply(name));
            }
            descend(stack, Frame::Apply(name), *argument)
        },
    }
}

/// The step out of an operand that had the value `v`.
fn leave(v: Value, frames: Vec<Frame>, env: &mut Environment) -> (r: Step)
    ensures
        sound(r, Control::Return(v), frames@, old(env)@, final(env)@),
{
    let mut stack = frames;
    match stack.pop() {
        None => Step::Stop(Progress::Finished(Ok(v))),
        Some(frame) => {
            proof {
                assert(frames@.drop_last() =~= stack@);
                assert(frames@.last() == frame);
            }
            match frame {
                Frame::Bind(name) => {
                    env.insert(name, v);
                    Step::Continue(Control::Return(v), stack)
                },
                Frame::LeftOf(op, right) => {
                    proof {
                        lemma_push(stack@, Frame::RightOf(op, v));
                    }
                    descend(stack, Frame::RightOf(op, v), right)
                },
                Frame::RightOf(op, left) => {
                    if op == Opcode::Div && v.equals_zero() {
                        Step::Stop(Progress::Finished(Err(RuntimeError::DivisionByZero)))
                    } else {
                        Step::Stop(suspend(Request::Binary(op, left, v), stack))
                    }
                },
                Frame::Negate => Step::Continue(Control::Return(v.negate()), stack),
                Frame::Factorial => match v.to_count() {
                    Some(n) => {
                        Step::Stop(suspend(Request::Integer(factorial(n)), stack))
                    },
                    None => {
                        Step::Stop(Progress::Finished(Err(RuntimeError::InvalidFactorial)))
                    },
                },
                Frame::Apply(name) => match function_of(&name) {
                    None => {
                        Step::Stop(
                            Progress::Finished(Err(RuntimeError::UnknownFunction(name))),
                        )
                    },
                    Some(function) => {
                        if function == Function::Sqrt && v.below_zero() {
                            Step::Stop(Progress::Finished(Err(RuntimeError::NegativeSqrt)))
                        } else if function == Function::Ln && (v.below_zero() || v.equals_zero()) {
                            Step::Stop(Progress::Finished(Err(RuntimeError::NonPositiveLog)))
                        } else {
                            Step::Stop(suspend(Request::Call(function, v), stack))
                        }
                    },
                },
            }
        },
    }
}

/// Walks on from where `start` stands until the evaluation is over or needs
/// a computation.
fn run(start: Control, frames: Vec<Frame>, env: &mut Environment) -> (p: Progress)
    ensures
        p.consistent(),
        p.remaining() < rank(start, frames@),
        forall|arith: Arithmetic|
            p.outcome(final(env)@, arith) == #[trigger] meaning(start, frames@, old(env)@, arith),
{
    let ghost first = (start, frames@, env@);
    let mut control = start;
    let mut stack = frames;
    loop
        invariant
            first == (start, frames@, old(env)@),
            rank(control, stack@) <= rank(first.0, first.1),
            forall|arith: Arithmetic|
                meaning(control, stack@, env@, arith) == #[trigger] meaning(
                    first.0,
                    first.1,
                    first.2,
                    arith,
                ),
        decreases rank(control, stack@),
    {
        let ghost before = (control, stack@, env@);
        let step = match control {
            Control::Eval(tree) => enter(tree, stack, env),
            Control::Return(v) => leave(v, stack, env),
        };
        assert(sound(step, before.0, before.1, before.2, env@));
        match step {
            Step::Continue(next, frames) => {
                proof {
                    assert forall|arith: Arithmetic|
                        meaning(next, frames@, env@, arith) == #[trigger] meaning(
                            first.0,
                            first.1,
                            first.2,
                            arith,
                        ) by {
                        assert(meaning(next, frames@, env@, arith) == meaning(
                            before.0,
                            before.1,
                            before.2,
                            arith,
                        ));
                    }
                }
                control = next;
                stack = frames;
            },
            Step::Stop(p) => {
                proof {
                    assert forall|arith: Arithmetic|
                        p.outcome(env@, arith) == #[trigger] meaning(
                            first.0,
                            first.1,
                            first.2,
                            arith,
                        ) by {
                        assert(p.outcome(env@, arith) == meaning(
                            before.0,
                            before.1,
                            before.2,
                            arith,
                        ));
                    }
                }
                assert(first.0 == start);
                assert(first.1 == frames@);
                assert(first.2 == old(env)@);
                return p;
            },
        }
    }
}

/// Begins the evaluation of a statement.
///
/// The evaluation will end in what the semantics gives the statement in
/// the bindings that `env` holds at this call; a bound on its steps is the
/// cost of the tree.
pub fn evaluate(expr: Expr, env: &mut Environment) -> (p: Progress)
    ensures
        p.consistent(),
        p.remaining() < cost(expr@),
        forall|arith: Arithmetic| #[trigger]
            p.outcome(final(env)@, arith) == semantics(expr@, old(env)@, arith),
{
    let ghost before = env@;
    let p = run(Control::Eval(expr), Vec::new(), env);
    proof {
        assert forall|arith: Arithmetic| #[trigger]
            p.outcome(env@, arith) == semantics(expr@, before, arith) by {
            assert(p.outcome(env@, arith) == meaning(
                Control::Eval(expr),
                Seq::<Frame>::empty(),
                before,
                arith,
            ));
        }
    }
    p
}

} // verus!
