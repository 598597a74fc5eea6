//! The order in which an expression is evaluated and the domain checks made
//! along the way, as a plan for a stack machine.
//!
//! A plan is run on a stack of numbers, with a cursor on its literals that
//! starts at the first one:
//! - `Push` pushes the value of the literal under the cursor and moves the
//!   cursor to the next one;
//! - `Swap` exchanges the two top values;
//! - `Check(g)` leaves the stack as it is, and stops the run with the error
//!   of `g` unless `g` holds of the top values;
//! - a binary step pops the right operand (the top), then the left one, and
//!   pushes `left op right`;
//! - a unary step replaces the top value `x` by `f(x)`.
//!
//! A run of a whole plan ends with one value on the stack: the result.
use vstd::prelude::*;
use crate::ast::{Decimal, DecimalModel, Expr, ExprModel, ParseError, parse_expression, parse_spec};

verus! {

/// A domain condition checked on the top of the stack.
#[derive(Clone, Copy, Debug, PartialEq, Eq, Structural)]
pub enum Guard {
    /// The top value, a divisor, is not zero ("division by zero").
    NonZeroDivisor,
    /// The top value, the degree of a root, is not zero.
    NonZeroDegree,
    /// The top value, the argument of `ln`, is above zero.
    PositiveLnArgument,
    /// Of the two top values, the value below and the base on top: both
    /// are above zero, and the base is not one.
    LogArguments,
}

/// One instruction of a plan.
#[derive(Clone, Copy, Debug, PartialEq, Eq, Structural)]
pub enum Step {
    Push,
    Swap,
    Check(Guard),
    Add,
    Sub,
    Mul,
    Div,
    Pow,
    Root,
    Log,
    Sin,
    Cos,
    Tan,
    Exp,
    Ln,
}

/// The instructions of an evaluation, and the literals that its `Push`
/// steps take in turn.
#[derive(Debug)]
pub struct Plan {
    pub steps: Vec<Step>,
    pub literals: Vec<Decimal>,
}

/// The models of a sequence of literals.
pub open spec fn models(ds: Seq<Decimal>) -> Seq<DecimalModel> {
    ds.map_values(|d: Decimal| d@)
}

/// The steps that evaluate `e`. Operands are evaluated left to right, but
/// for a division the divisor is evaluated and checked before the dividend,
/// and for a root the degree before the value; a logarithm checks its two
/// arguments once both are evaluated.
pub open spec fn steps_of(e: ExprModel) -> Seq<Step>
    decreases e,
{
    match e {
        ExprModel::Num(_) => seq![Step::Push],
        ExprModel::Add(a, b) => steps_of(*a) + steps_of(*b) + seq![Step::Add],
        ExprModel::Sub(a, b) => steps_of(*a) + steps_of(*b) + seq![Step::Sub],
        ExprModel::Mul(a, b) => steps_of(*a) + steps_of(*b) + seq![Step::Mul],
        ExprModel::Div(a, b) => steps_of(*b) + seq![Step::Check(Guard::NonZeroDivisor)]
            + steps_of(*a) + seq![Step::Swap, Step::Div],
        ExprModel::Sin(x) => steps_of(*x) + seq![Step::Sin],
        ExprModel::Cos(x) => steps_of(*x) + seq![Step::Cos],
        ExprModel::Tan(x) => steps_of(*x) + seq![Step::Tan],
        ExprModel::Exp(x) => steps_of(*x) + seq![Step::Exp],
        ExprModel::Ln(x) => steps_of(*x) + seq![Step::Check(Guard::PositiveLnArgument), Step::Ln],
        ExprModel::Pow(a, b) => steps_of(*a) + steps_of(*b) + seq![Step::Pow],
        ExprModel::Root(v, d) => steps_of(*d) + seq![Step::Check(Guard::NonZeroDegree)]
            + steps_of(*v) + seq![Step::Swap, Step::Root],
        ExprModel::Log(v, b) => steps_of(*v) + steps_of(*b) + seq![
            Step::Check(Guard::LogArguments),
            Step::Log,
        ],
    }
}

/// The literals of `e` in the order in which `steps_of(e)` pushes them.
pub open spec fn literals_of(e: ExprModel) -> Seq<DecimalModel>
    decreases e,
{
    match e {
        ExprModel::Num(d) => seq![d],
        ExprModel::Div(a, b) => literals_of(*b) + literals_of(*a),
        ExprModel::Root(v, d) => literals_of(*d) + literals_of(*v),
        ExprModel::Add(a, b) | ExprModel::Sub(a, b) | ExprModel::Mul(a, b) | ExprModel::Pow(a, b)
        | ExprModel::Log(a, b) => literals_of(*a) + literals_of(*b),
        ExprModel::Sin(x) | ExprModel::Cos(x) | ExprModel::Tan(x) | ExprModel::Exp(x)
        | ExprModel::Ln(x) => literals_of(*x),
    }
}

/// Appends to `steps` and `literals` the plan of `e`.
fn append_plan(e: &Expr, steps: &mut Vec<Step>, literals: &mut Vec<Decimal>)
    ensures
        final(steps)@ == old(steps)@ + steps_of(e@),
        models(final(literals)@) == models(old(literals)@) + literals_of(e@),
    decreases e,
{
    let ghost s0 = steps@;
    let ghost l0 = models(literals@);
    match e {
        Expr::Num(d) => {
            literals.push(d.copy());
            steps.push(Step::Push);
            assert(models(literals@) =~= l0 + literals_of(e@));
            assert(steps@ =~= s0 + steps_of(e@));
        },
        Expr::Add(a, b) | Expr::Sub(a, b) | Expr::Mul(a, b) | Expr::Pow(a, b) => {
            append_plan(a, steps, literals);
            append_plan(b, steps, literals);
            steps.push(
                match e {
                    Expr::Add(..) => Step::Add,
                    Expr::Sub(..) => Step::Sub,
                    Expr::Mul(..) => Step::Mul,
                    _ => Step::Pow,
                },
            );
            assert(models(literals@) =~= l0 + literals_of(e@));
            assert(steps@ =~= s0 + steps_of(e@));
        },
        Expr::Div(a, b) | Expr::Root(a, b) => {
            let is_div = match e {
                Expr::Div(..) => true,
                _ => false,
            };
            append_plan(b, steps, literals);
            steps.push(
                Step::Check(
                    if is_div {
                        Guard::NonZeroDivisor
                    } else {
                        Guard::NonZeroDegree
                    },
                ),
            );
            append_plan(a, steps, literals);
            steps.push(Step::Swap);
            steps.push(
                if is_div {
                    Step::Div
                } else {
                    Step::Root
                },
            );
            assert(models(literals@) =~= l0 + literals_of(e@));
            assert(steps@ =~= s0 + steps_of(e@));
        },
        Expr::Log(v, b) => {
            append_plan(v, steps, literals);
            append_plan(b, steps, literals);
            steps.push(Step::Check(Guard::LogArguments));
            steps.push(Step::Log);
            assert(models(literals@) =~= l0 + literals_of(e@));
            assert(steps@ =~= s0 + steps_of(e@));
        },
        Expr::Ln(x) => {
            append_plan(x, steps, literals);
            steps.push(Step::Check(Guard::PositiveLnArgument));
            steps.push(Step::Ln);
            assert(models(literals@) =~= l0 + literals_of(e@));
            assert(steps@ =~= s0 + steps_of(e@));
        },
        Expr::Sin(x) | Expr::Cos(x) | Expr::Tan(x) | Expr::Exp(x) => {
            append_plan(x, steps, literals);
            steps.push(
                match e {
                    Expr::Sin(..) => Step::Sin,
                    Expr::Cos(..) => Step::Cos,
                    Expr::Tan(..) => Step::Tan,
                    _ => Step::Exp,
                },
            );
            assert(models(literals@) =~= l0 + literals_of(e@));
            assert(steps@ =~= s0 + steps_of(e@));
        },
    }
}

/// The plan that evaluates `expr`.
pub fn plan_of(expr: &Expr) -> (r: Plan)
    ensures
        r.steps@ == steps_of(expr@),
        models(r.literals@) == literals_of(expr@),
{
    let mut steps: Vec<Step> = Vec::new();
    let mut literals: Vec<Decimal> = Vec::new();
    append_plan(expr, &mut steps, &mut literals);
    assert(steps@ =~= steps_of(expr@));
    assert(models(literals@) =~= literals_of(expr@));
    Plan { steps, literals }
}

/// The plan of the expression that the text `s` stands for: its steps and
/// its literals, or why the text is not an expression.
pub open spec fn prepared(s: Seq<char>) -> Result<(Seq<Step>, Seq<DecimalModel>), ParseError> {
    match parse_spec(s) {
        Err(e) => Err(e),
        Ok(x) => Ok((steps_of(x), literals_of(x))),
    }
}

/// Parses `input` and plans its evaluation.
pub fn prepare(input: &str) -> (r: Result<Plan, ParseError>)
    ensures
        match r {
            Ok(p) => prepared(input@) == Ok::<(Seq<Step>, Seq<DecimalModel>), ParseError>(
                (p.steps@, models(p.literals@)),
            ),
            Err(e) => prepared(input@) == Err::<(Seq<Step>, Seq<DecimalModel>), ParseError>(e),
        },
{
    match parse_expression(input) {
        Err(e) => Err(e),
        Ok(x) => Ok(plan_of(&x)),
    }
}

/// Preparing the same text twice gives the same steps and the same
/// literals both times, hence the same value when run: the result depends
/// on the text alone.
pub proof fn lemma_prepare_repeatable(a: Seq<char>, b: Seq<char>)
    requires
        a == b,
    ensures
        prepared(a) == prepared(b),
{
}

/// How many values at the top of the stack a step reads.
pub open spec fn reads(st: Step) -> int {
    match st {
        Step::Push => 0,
        Step::Check(Guard::LogArguments) => 2,
        Step::Check(_) => 1,
        Step::Sin | Step::Cos | Step::Tan | Step::Exp | Step::Ln => 1,
        _ => 2,
    }
}

/// How a step changes the number of values on the stack.
pub open spec fn effect(st: Step) -> int {
    match st {
        Step::Push => 1,
        Step::Swap | Step::Check(_) => 0,
        Step::Sin | Step::Cos | Step::Tan | Step::Exp | Step::Ln => 0,
        _ => -1,
    }
}

/// Whether `steps`, run on a stack of `h` values, never read below its bottom.
pub open spec fn runs_from(steps: Seq<Step>, h: int) -> bool
    decreases steps.len(),
{
    steps.len() == 0 || (reads(steps[0]) <= h && runs_from(steps.drop_first(), h + effect(steps[0])))
}

/// The number of values on the stack after `steps` run on `h` values.
pub open spec fn height_after(steps: Seq<Step>, h: int) -> int
    decreases steps.len(),
{
    if steps.len() == 0 {
        h
    } else {
        height_after(steps.drop_first(), h + effect(steps[0]))
    }
}

/// The number of `Push` steps in `steps`.
pub open spec fn pushes(steps: Seq<Step>) -> nat
    decreases steps.len(),
{
    if steps.len() == 0 {
        0
    } else {
        (if steps[0] == Step::Push { 1nat } else { 0nat }) + pushes(steps.drop_first())
    }
}

proof fn lemma_concat(a: Seq<Step>, b: Seq<Step>, h: int)
    ensures
        runs_from(a + b, h) == (runs_from(a, h) && runs_from(b, height_after(a, h))),
        height_after(a + b, h) == height_after(b, height_after(a, h)),
        pushes(a + b) == pushes(a) + pushes(b),
    decreases a.len(),
{
    if a.len() > 0 {
        assert((a + b).drop_first() =~= a.drop_first() + b);
        lemma_concat(a.drop_first(), b, h + effect(a[0]));
    } else {
        assert(a + b =~= b);
    }
}

proof fn lemma_single(st: Step, h: int)
    ensures
        runs_from(seq![st], h) == (reads(st) <= h),
        height_after(seq![st], h) == h + effect(st),
        pushes(seq![st]) == (if st == Step::Push { 1nat } else { 0nat }),
{
    let rest = seq![st].drop_first();
    assert(rest =~= Seq::<Step>::empty());
    assert(runs_from(rest, h + effect(st)));
    assert(height_after(rest, h + effect(st)) == h + effect(st));
    assert(pushes(rest) == 0);
}

proof fn lemma_pair(a: Step, b: Step, h: int)
    ensures
        runs_from(seq![a, b], h) == (reads(a) <= h && reads(b) <= h + effect(a)),
        height_after(seq![a, b], h) == h + effect(a) + effect(b),
        pushes(seq![a, b]) == pushes(seq![a]) + pushes(seq![b]),
        pushes(seq![a]) == (if a == Step::Push { 1nat } else { 0nat }),
        pushes(seq![b]) == (if b == Step::Push { 1nat } else { 0nat }),
{
    assert(seq![a, b] =~= seq![a] + seq![b]);
    lemma_concat(seq![a], seq![b], h);
    lemma_single(a, h);
    lemma_single(b, h + effect(a));
}

/// The plan of every expression runs on any stack without reading below
/// what was there, leaves exactly one value more (its result), and pushes
/// exactly its literals.
pub proof fn lemma_plan_well_formed(e: ExprModel, h: int)
    requires
        h >= 0,
    ensures
        runs_from(steps_of(e), h),
        height_after(steps_of(e), h) == h + 1,
        pushes(steps_of(e)) == literals_of(e).len(),
    decreases e,
{
    match e {
        ExprModel::Num(d) => {
            lemma_single(Step::Push, h);
            assert(literals_of(e) =~= seq![d]);
        },
        ExprModel::Add(a, b) | ExprModel::Sub(a, b) | ExprModel::Mul(a, b) | ExprModel::Pow(a, b) => {
            let op = steps_of(e).last();
            lemma_plan_well_formed(*a, h);
            lemma_plan_well_formed(*b, h + 1);
            lemma_concat(steps_of(*a), steps_of(*b), h);
            lemma_concat(steps_of(*a) + steps_of(*b), seq![op], h);
            lemma_single(op, h + 2);
        },
        ExprModel::Log(a, b) => {
            let tail = seq![Step::Check(Guard::LogArguments), Step::Log];
            lemma_plan_well_formed(*a, h);
            lemma_plan_well_formed(*b, h + 1);
            lemma_concat(steps_of(*a), steps_of(*b), h);
            lemma_concat(steps_of(*a) + steps_of(*b), tail, h);
            lemma_pair(Step::Check(Guard::LogArguments), Step::Log, h + 2);
        },
        ExprModel::Div(a, b) | ExprModel::Root(a, b) => {
            let is_div = e is Div;
            let g = Step::Check(if is_div { Guard::NonZeroDivisor } else { Guard::NonZeroDegree });
            let op = if is_div { Step::Div } else { Step::Root };
            let sb = steps_of(*b) + seq![g];
            let sab = sb + steps_of(*a);
            lemma_plan_well_formed(*b, h);
            lemma_plan_well_formed(*a, h + 1);
            lemma_concat(steps_of(*b), seq![g], h);
            lemma_single(g, h + 1);
            lemma_concat(sb, steps_of(*a), h);
            lemma_concat(sab, seq![Step::Swap, op], h);
            lemma_pair(Step::Swap, op, h + 2);
        },
        ExprModel::Ln(x) => {
            let tail = seq![Step::Check(Guard::PositiveLnArgument), Step::Ln];
            lemma_plan_well_formed(*x, h);
            lemma_concat(steps_of(*x), tail, h);
            lemma_pair(Step::Check(Guard::PositiveLnArgument), Step::Ln, h + 1);
        },
        ExprModel::Sin(x) | ExprModel::Cos(x) | ExprModel::Tan(x) | ExprModel::Exp(x) => {
            let op = steps_of(e).last();
            lemma_plan_well_formed(*x, h);
            lemma_concat(steps_of(*x), seq![op], h);
            lemma_single(op, h + 1);
        },
    }
}

} // verus!
