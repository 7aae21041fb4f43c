//! The tree-walking interpreter: a runtime context (variable bindings, the
//! program store, a call-return stack and an execution cursor) and the
//! evaluation of expressions and statements against it, with the RUN
//! control loop.
//!
//! Every piece of behavior is specified against a mathematical machine
//! state [`StateV`]: expression evaluation by [`eval_expr`], every
//! statement by [`step_stmt`] (INPUT responses and LOAD texts go back
//! through the specified parser), the RUN loop by [`run_outcome`], one
//! parsed line by [`eval_line`], and a whole submission by
//! [`session_steps`].
//!
//! The interpreter never blocks: INPUT takes the next queued line from the
//! [`IoBuffer`] and reports when the queue runs dry, and the RUN loop walks
//! at most a caller-chosen number of lines before reporting that the budget
//! ran out, since a stored program may loop forever.

use vstd::prelude::*;

use crate::ast::ArithmeticOperator;
use crate::ast::BinaryExpression;
use crate::ast::UnaryExpression;
use crate::ast::ExprV;
use crate::ast::expr_view;
use crate::ast::stmt_view;
use crate::ast::lit_view;
use crate::ast::line_view;
use crate::ast::Expression;
use crate::ast::Identifier;
use crate::ast::IfCondition;
use crate::ast::Line;
use crate::ast::LineV;
use crate::ast::LitV;
use crate::ast::Literal;
use crate::ast::RelationOperator;
use crate::ast::Statement;
use crate::ast::StmtV;
use crate::ast::UnaryOperator;
use crate::ast::VarDeclaration;
use crate::errors::RunErrV;
use crate::errors::SynErrV;
use crate::errors::RuntimeError;
use crate::io::EventV;
use crate::io::IoBuffer;
use crate::io::IoV;
use crate::io::OutputEvent;
use crate::errors::render_run;
use crate::errors::render_syn;
use crate::parser::Parser;
use crate::parser::lemma_sp_parse_some;
use crate::parser::sp_parse;
use crate::parser::stmt_fuel_for;
use crate::text::usize_to_string;
use crate::text::dec_digits;
use crate::program::MAX_LINES;
use crate::program::Program;
use crate::program::render_listing;
use crate::program::stored_lines;
use crate::text::dec_int;
use crate::text::i64_to_string;
use crate::vars::VarMap;

verus! {

/// A runtime evaluation result: a number, a piece of text, or nothing (the
/// result of a statement that has only side effects).
#[derive(Debug, PartialEq)]
pub enum Value {
    Number(i64),
    Text(String),
    Null,
}

/// The mathematical view of a value.
pub enum ValV {
    Number(i64),
    Text(Seq<char>),
    Null,
}

impl View for Value {
    type V = ValV;

    open spec fn view(&self) -> ValV {
        match self {
            Value::Number(n) => ValV::Number(*n),
            Value::Text(s) => ValV::Text(s@),
            Value::Null => ValV::Null,
        }
    }
}

/// The text a value shows as: a decimal number, the text itself, or
/// nothing.
pub open spec fn render_value(v: ValV) -> Seq<char> {
    match v {
        ValV::Number(n) => dec_int(n as int),
        ValV::Text(t) => t,
        ValV::Null => Seq::empty(),
    }
}

impl Value {
    /// A structural copy; the result has the same view as the original.
    pub fn duplicate(&self) -> (r: Value)
        ensures
            r@ == self@,
    {
        match self {
            Value::Number(n) => Value::Number(*n),
            Value::Text(s) => Value::Text(s.clone()),
            Value::Null => Value::Null,
        }
    }

    /// The text this value shows as.
    pub fn render(&self) -> (r: String)
        ensures
            r@ == render_value(self@),
    {
        match self {
            Value::Number(n) => i64_to_string(*n),
            Value::Text(s) => s.clone(),
            Value::Null => String::new(),
        }
    }
}

/// The view of an evaluation result.
pub open spec fn res_view(r: Result<Value, RuntimeError>) -> Result<ValV, RunErrV> {
    match r {
        Result::Ok(v) => Result::Ok(v@),
        Result::Err(e) => Result::Err(e@),
    }
}

/// The value of a binary operator applied to two already-evaluated
/// operands: the four arithmetic operators on numbers (faulting on overflow
/// and on division by zero), concatenation on two pieces of text, and an
/// invalid-operation fault for every other combination.
pub open spec fn eval_binary(cur: nat, op: ArithmeticOperator, l: ValV, r: ValV) -> Result<
    ValV,
    RunErrV,
> {
    match (l, r) {
        (ValV::Number(a), ValV::Number(b)) => {
            let c = match op {
                ArithmeticOperator::Add => a.checked_add(b),
                ArithmeticOperator::Subtract => a.checked_sub(b),
                ArithmeticOperator::Multiply => a.checked_mul(b),
                ArithmeticOperator::Divide => a.checked_div(b),
            };
            match c {
                Option::Some(v) => Result::Ok(ValV::Number(v)),
                Option::None => Result::Err(RunErrV::InvalidOperation(cur)),
            }
        },
        (ValV::Text(a), ValV::Text(b)) => match op {
            ArithmeticOperator::Add => Result::Ok(ValV::Text(a + b)),
            _ => Result::Err(RunErrV::InvalidOperation(cur)),
        },
        _ => Result::Err(RunErrV::InvalidOperation(cur)),
    }
}

/// The value of an expression under the given variable bindings. `cur` is
/// the current line, used to tag faults.
pub open spec fn eval_expr(vars: Map<Seq<char>, ValV>, cur: nat, e: ExprV) -> Result<ValV, RunErrV>
    decreases e,
{
    match e {
        ExprV::Ident(name) => if vars.contains_key(name) {
            Result::Ok(vars[name])
        } else {
            Result::Err(RunErrV::UndefinedVariable(name, cur))
        },
        ExprV::Lit(l) => match l {
            LitV::Num(n) => if n <= i64::MAX as nat {
                Result::Ok(ValV::Number(n as i64))
            } else {
                Result::Err(RunErrV::InvalidOperation(cur))
            },
            LitV::Text(t) => Result::Ok(ValV::Text(t)),
        },
        ExprV::Unary(op, arg) => match eval_expr(vars, cur, *arg) {
            Result::Ok(ValV::Number(n)) => match op {
                Option::Some(UnaryOperator::Minus) => match (0i64).checked_sub(n) {
                    Option::Some(m) => Result::Ok(ValV::Number(m)),
                    Option::None => Result::Err(RunErrV::InvalidOperation(cur)),
                },
                _ => Result::Ok(ValV::Number(n)),
            },
            Result::Ok(_) => Result::Err(RunErrV::InvalidOperation(cur)),
            Result::Err(err) => Result::Err(err),
        },
        ExprV::Binary(op, l, r) => match eval_expr(vars, cur, *l) {
            Result::Ok(lv) => match eval_expr(vars, cur, *r) {
                Result::Ok(rv) => eval_binary(cur, op, lv, rv),
                Result::Err(err) => Result::Err(err),
            },
            Result::Err(err) => Result::Err(err),
        },
    }
}

/// The one line of text a PRINT statement emits: each expression's value,
/// left to right, joined with single spaces; or the first fault met.
pub open spec fn print_text(vars: Map<Seq<char>, ValV>, cur: nat, es: Seq<ExprV>) -> Result<
    Seq<char>,
    RunErrV,
>
    decreases es.len(),
{
    if es.len() == 0 {
        Result::Ok(Seq::empty())
    } else if es.len() == 1 {
        match eval_expr(vars, cur, es[0]) {
            Result::Ok(v) => Result::Ok(render_value(v)),
            Result::Err(e) => Result::Err(e),
        }
    } else {
        match print_text(vars, cur, es.drop_last()) {
            Result::Ok(t) => match eval_expr(vars, cur, es.last()) {
                Result::Ok(v) => Result::Ok(t + seq![' '] + render_value(v)),
                Result::Err(e) => Result::Err(e),
            },
            Result::Err(e) => Result::Err(e),
        }
    }
}

/// Whether a relational comparison of two numbers holds.
pub open spec fn compare(op: RelationOperator, a: i64, b: i64) -> bool {
    match op {
        RelationOperator::Equal => a == b,
        RelationOperator::NotEqual => a != b,
        RelationOperator::LessThan => a < b,
        RelationOperator::LessThanOrEqual => a <= b,
        RelationOperator::GreaterThan => a > b,
        RelationOperator::GreaterThanOrEqual => a >= b,
    }
}

/// The mathematical state of the machine: variable bindings, the program
/// image, the call-return stack, and the execution cursor.
#[verifier::ext_equal]
pub struct StateV {
    pub vars: Map<Seq<char>, ValV>,
    pub program: Seq<Option<LineV>>,
    pub stack: Seq<int>,
    pub cursor: int,
}

/// What executing one statement hands back: a value (often the no-value
/// `Null`), the request to (re)start a program run, or a report that the
/// queued input lines or the step budget ran out.
#[derive(Debug, PartialEq)]
pub enum Outcome {
    Val(Value),
    RunSignal,
    OutOfInput,
    OutOfSteps,
}

/// The mathematical view of an outcome.
pub enum OutcomeV {
    Val(ValV),
    RunSignal,
    OutOfInput,
    OutOfSteps,
}

impl View for Outcome {
    type V = OutcomeV;

    open spec fn view(&self) -> OutcomeV {
        match self {
            Outcome::Val(v) => OutcomeV::Val(v@),
            Outcome::RunSignal => OutcomeV::RunSignal,
            Outcome::OutOfInput => OutcomeV::OutOfInput,
            Outcome::OutOfSteps => OutcomeV::OutOfSteps,
        }
    }
}

/// The view of a statement execution result.
pub open spec fn outcome_res_view(r: Result<Outcome, RuntimeError>) -> Result<OutcomeV, RunErrV> {
    match r {
        Result::Ok(o) => Result::Ok(o@),
        Result::Err(e) => Result::Err(e@),
    }
}

/// A program image with every slot vacant.
pub open spec fn empty_program() -> Seq<Option<LineV>> {
    Seq::new(MAX_LINES as nat, |i: int| Option::None)
}

/// The machine state a RUN begins from, and the state NEW leaves behind
/// together with an empty program: no bindings, an empty call stack, the
/// cursor at zero.
pub open spec fn reset_state(s: StateV) -> StateV {
    StateV { vars: Map::empty(), program: s.program, stack: Seq::empty(), cursor: 0 }
}

/// The text HELP shows.
pub open spec fn help_text() -> Seq<char> {
    "PRINT <expression>[, <expression>...]\nINPUT <variable>[, <variable>...]\nIF <condition> THEN <statement>\nLET <variable> = <expression>\nGOTO <line>\nGOSUB <line>\nREM <comment>\nRETURN\nEND\nCLS\nLIST\nRUN\nNEW"@
}

/// The target of a GOTO (or of the jump half of a GOSUB): the expression
/// must evaluate to a number inside the address space, which becomes the
/// cursor; anything else is an illegal-line-number fault carrying the text
/// of the offending value.
pub open spec fn goto_step(s: StateV, e: ExprV) -> (StateV, Result<OutcomeV, RunErrV>) {
    match eval_expr(s.vars, s.cursor as nat, e) {
        Result::Ok(ValV::Number(n)) => if 0 <= n < MAX_LINES {
            (StateV { cursor: n as int, ..s }, Result::Ok(OutcomeV::Val(ValV::Null)))
        } else {
            (s, Result::Err(RunErrV::IllegalLineNumber(dec_int(n as int))))
        },
        Result::Ok(v) => (s, Result::Err(RunErrV::IllegalLineNumber(render_value(v)))),
        Result::Err(err) => (s, Result::Err(err)),
    }
}

/// Executing one statement: the new machine state, the new I/O state, and
/// the outcome. INPUT consumes queued input lines as [`input_steps`], and
/// LOAD replaces the program with the spec-parsed image of the persisted
/// text as [`load_prog_of`].
pub open spec fn step_stmt(s: StateV, io: IoV, stmt: StmtV) -> (StateV, IoV, Result<
    OutcomeV,
    RunErrV,
>)
    decreases stmt,
{
    let cur = s.cursor as nat;
    match stmt {
        StmtV::Print(es) => match print_text(s.vars, cur, es) {
            Result::Ok(t) => (s, io, Result::Ok(OutcomeV::Val(ValV::Text(t)))),
            Result::Err(e) => (s, io, Result::Err(e)),
        },
        StmtV::Assign(name, e) => match eval_expr(s.vars, cur, e) {
            Result::Ok(v) => (
                StateV { vars: s.vars.insert(name, v), ..s },
                io,
                Result::Ok(OutcomeV::Val(ValV::Null)),
            ),
            Result::Err(err) => (s, io, Result::Err(err)),
        },
        StmtV::If(op, l, r, then) => match eval_expr(s.vars, cur, l) {
            Result::Ok(lv) => match eval_expr(s.vars, cur, r) {
                Result::Ok(rv) => match (lv, rv) {
                    (ValV::Number(a), ValV::Number(b)) => if compare(op, a, b) {
                        step_stmt(s, io, *then)
                    } else {
                        (s, io, Result::Ok(OutcomeV::Val(ValV::Null)))
                    },
                    _ => (s, io, Result::Err(RunErrV::InvalidOperation(cur))),
                },
                Result::Err(e) => (s, io, Result::Err(e)),
            },
            Result::Err(e) => (s, io, Result::Err(e)),
        },
        StmtV::Goto(e) => {
            let (s2, res) = goto_step(s, e);
            (s2, io, res)
        },
        StmtV::Gosub(e) => {
            let (s2, res) = goto_step(StateV { stack: s.stack.push(s.cursor), ..s }, e);
            (s2, io, res)
        },
        StmtV::Return => if s.stack.len() > 0 {
            (
                StateV { cursor: s.stack.last(), stack: s.stack.drop_last(), ..s },
                io,
                Result::Ok(OutcomeV::Val(ValV::Null)),
            )
        } else {
            (s, io, Result::Ok(OutcomeV::Val(ValV::Null)))
        },
        StmtV::End => (
            StateV { cursor: MAX_LINES as int, ..s },
            io,
            Result::Ok(OutcomeV::Val(ValV::Null)),
        ),
        StmtV::New => (
            StateV { vars: Map::empty(), program: empty_program(), stack: Seq::empty(), cursor: 0 },
            io,
            Result::Ok(OutcomeV::Val(ValV::Null)),
        ),
        StmtV::Run => (s, io, Result::Ok(OutcomeV::RunSignal)),
        StmtV::List => (
            s,
            io,
            Result::Ok(OutcomeV::Val(ValV::Text(render_listing(stored_lines(s.program))))),
        ),
        StmtV::Help => (s, io, Result::Ok(OutcomeV::Val(ValV::Text(help_text())))),
        StmtV::Cls => (
            s,
            IoV { output: io.output.push(EventV::ClearScreen), ..io },
            Result::Ok(OutcomeV::Val(ValV::Null)),
        ),
        StmtV::Save => (
            s,
            IoV {
                output: io.output.push(
                    EventV::Save(render_listing(stored_lines(s.program))),
                ),
                ..io
            },
            Result::Ok(OutcomeV::Val(ValV::Null)),
        ),
        StmtV::Rem => (s, io, Result::Ok(OutcomeV::Val(ValV::Null))),
        StmtV::Empty => (s, io, Result::Ok(OutcomeV::Val(ValV::Null))),
        StmtV::Input(names) => {
            let (v2, n2, o2, res) = input_steps(
                s.vars,
                cur,
                names,
                io.inputs,
                io.next_input,
                io.output,
            );
            (StateV { vars: v2, ..s }, IoV { next_input: n2, output: o2, ..io }, res)
        },
        StmtV::Load => match io.load_text {
            Option::None => (s, io, Result::Ok(OutcomeV::Val(ValV::Null))),
            Option::Some(text) => (
                StateV {
                    vars: Map::empty(),
                    program: load_prog_of(text),
                    stack: Seq::empty(),
                    cursor: 0,
                },
                IoV { output: io.output + load_events_of(text), ..io },
                Result::Ok(OutcomeV::Val(ValV::Null)),
            ),
        },
    }
}

/// No sequence of INPUT bindings ever reports that the step budget ran
/// out: that outcome belongs to the RUN loop alone.
pub proof fn lemma_input_steps_not_outofsteps(
    vars: Map<Seq<char>, ValV>,
    cur: nat,
    names: Seq<Seq<char>>,
    inputs: Seq<Seq<char>>,
    next: int,
    out: Seq<EventV>,
)
    ensures
        input_steps(vars, cur, names, inputs, next, out).3 != Result::<OutcomeV, RunErrV>::Ok(
            OutcomeV::OutOfSteps,
        ),
        input_steps(vars, cur, names, inputs, next, out).3 != Result::<OutcomeV, RunErrV>::Ok(
            OutcomeV::RunSignal,
        ),
    decreases names.len(),
{
    if names.len() > 0 {
        let name = names[0];
        if next < inputs.len() {
            let line = inputs[next];
            match crate::parser::sp_expr(line, 0, crate::parser::fuel_for(line, 0)) {
                Option::Some(Result::Ok((e, _p))) => match eval_expr(vars, cur, e) {
                    Result::Ok(v) => {
                        lemma_input_steps_not_outofsteps(
                            vars.insert(name, v),
                            cur,
                            names.drop_first(),
                            inputs,
                            next + 1,
                            out.push(EventV::Prompt(name + seq!['?', ' '])).push(
                                EventV::Line(name + seq!['?', ' '] + line),
                            ),
                        );
                    },
                    Result::Err(_err) => {},
                },
                _ => {},
            }
        }
    }
}

/// Executing one statement never reports that the step budget ran out:
/// that outcome belongs to the RUN loop alone.
pub proof fn lemma_step_not_outofsteps(s: StateV, io: IoV, stmt: StmtV)
    ensures
        step_stmt(s, io, stmt).2 != Result::<OutcomeV, RunErrV>::Ok(OutcomeV::OutOfSteps),
    decreases stmt,
{
    match stmt {
        StmtV::If(op, l, r, then) => {
            lemma_step_not_outofsteps(s, io, *then);
        },
        StmtV::Input(names) => {
            lemma_input_steps_not_outofsteps(
                s.vars,
                s.cursor as nat,
                names,
                io.inputs,
                io.next_input,
                io.output,
            );
        },
        _ => {},
    }
}

/// Where one iteration of the RUN loop can stand: still going, finished
/// normally, or aborted by a fault.
pub enum RunStateV {
    Going(StateV, IoV),
    DoneOk(StateV, IoV),
    DoneErr(StateV, IoV, RunErrV),
    DoneInput(StateV, IoV),
}

/// One iteration of the RUN loop, for a program inside the specified
/// domain: when the cursor has left the address space the run is over;
/// otherwise the stored line at the cursor (if any) executes after the
/// cursor moves past it, a non-`Null` value is emitted as an output line, a
/// run signal resets the machine, and a fault ends the run.
pub open spec fn run_step(s: StateV, io: IoV) -> RunStateV {
    if !(0 <= s.cursor < MAX_LINES && s.cursor < s.program.len()) {
        RunStateV::DoneOk(s, io)
    } else {
        let fetched = s.program[s.cursor];
        let s1 = StateV { cursor: s.cursor + 1, ..s };
        match fetched {
            Option::None => RunStateV::Going(s1, io),
            Option::Some(l) => {
                let (s2, io2, res) = step_stmt(s1, io, l.statement);
                match res {
                    Result::Ok(OutcomeV::Val(ValV::Null)) => RunStateV::Going(s2, io2),
                    Result::Ok(OutcomeV::Val(v)) => RunStateV::Going(
                        s2,
                        IoV { output: io2.output.push(EventV::Line(render_value(v))), ..io2 },
                    ),
                    Result::Ok(OutcomeV::RunSignal) => RunStateV::Going(reset_state(s2), io2),
                    Result::Ok(OutcomeV::OutOfInput) => RunStateV::DoneInput(s2, io2),
                    Result::Ok(OutcomeV::OutOfSteps) => RunStateV::Going(s2, io2),
                    Result::Err(e) => RunStateV::DoneErr(s2, io2, e),
                }
            },
        }
    }
}

/// `n` iterations of the RUN loop; a finished run stays finished.
pub open spec fn run_steps(s: StateV, io: IoV, n: nat) -> RunStateV
    decreases n,
{
    if n == 0 {
        RunStateV::Going(s, io)
    } else {
        match run_steps(s, io, (n - 1) as nat) {
            RunStateV::Going(s1, io1) => run_step(s1, io1),
            done => done,
        }
    }
}


/// The full effect of an INPUT statement on the bindings, the input queue
/// and the output: for each target name in order, a prompt is emitted; if
/// no queued line is left the statement stops and asks the host for more;
/// otherwise the next line is consumed and echoed, parsed as a standalone
/// expression (the fuel never runs out at [`crate::parser::fuel_for`]), and
/// its value bound to the name, a malformed line surfacing as a wrapped
/// syntax fault.
pub open spec fn input_steps(
    vars: Map<Seq<char>, ValV>,
    cur: nat,
    names: Seq<Seq<char>>,
    inputs: Seq<Seq<char>>,
    next: int,
    out: Seq<EventV>,
) -> (Map<Seq<char>, ValV>, int, Seq<EventV>, Result<OutcomeV, RunErrV>)
    decreases names.len(),
{
    if names.len() == 0 {
        (vars, next, out, Result::Ok(OutcomeV::Val(ValV::Null)))
    } else {
        let name = names[0];
        let out1 = out.push(EventV::Prompt(name + seq!['?', ' ']));
        if next >= inputs.len() {
            (vars, next, out1, Result::Ok(OutcomeV::OutOfInput))
        } else {
            let line = inputs[next];
            let out2 = out1.push(EventV::Line(name + seq!['?', ' '] + line));
            match crate::parser::sp_expr(line, 0, crate::parser::fuel_for(line, 0)) {
                Option::Some(Result::Ok((e, _p))) => match eval_expr(vars, cur, e) {
                    Result::Ok(v) => input_steps(
                        vars.insert(name, v),
                        cur,
                        names.drop_first(),
                        inputs,
                        next + 1,
                        out2,
                    ),
                    Result::Err(err) => (vars, next + 1, out2, Result::Err(err)),
                },
                Option::Some(Result::Err(se)) => (
                    vars,
                    next + 1,
                    out2,
                    Result::Err(RunErrV::Syntax(se)),
                ),
                Option::None => (vars, next + 1, out2, Result::Ok(OutcomeV::Val(ValV::Null))),
            }
        }
    }
}


/// Where a RUN with the given step budget ends, and what it hands back: a
/// finished walk gives the no-value, a fault gives that fault, exhausted
/// input reports itself, and a walk still going when the budget is spent
/// reports the budget unless the cursor has already left the address
/// space.
pub open spec fn run_outcome(s: StateV, io: IoV, fuel: nat) -> (StateV, IoV, Result<
    OutcomeV,
    RunErrV,
>) {
    match run_steps(s, io, fuel) {
        RunStateV::DoneOk(s2, io2) => (s2, io2, Result::Ok(OutcomeV::Val(ValV::Null))),
        RunStateV::DoneErr(s2, io2, e) => (s2, io2, Result::Err(e)),
        RunStateV::DoneInput(s2, io2) => (s2, io2, Result::Ok(OutcomeV::OutOfInput)),
        RunStateV::Going(s2, io2) => if !(0 <= s2.cursor < MAX_LINES && s2.cursor
            < s2.program.len()) {
            (s2, io2, Result::Ok(OutcomeV::Val(ValV::Null)))
        } else {
            (s2, io2, Result::Ok(OutcomeV::OutOfSteps))
        },
    }
}

/// A finished run stays as it is however many more iterations are allowed.
pub proof fn lemma_run_steps_absorb(s: StateV, io: IoV, n: nat, m: nat)
    requires
        n <= m,
        !(run_steps(s, io, n) is Going),
    ensures
        run_steps(s, io, m) == run_steps(s, io, n),
    decreases m,
{
    if m > n {
        lemma_run_steps_absorb(s, io, n, (m - 1) as nat);
    }
}

/// The program image got by storing the given lines, in order, into `p`:
/// a line with a number inside the address space overwrites that slot, and
/// an unnumbered or out-of-range line is not stored.
pub open spec fn load_lines(p: Seq<Option<LineV>>, ls: Seq<LineV>) -> Seq<Option<LineV>>
    decreases ls.len(),
{
    if ls.len() == 0 {
        p
    } else {
        let p1 = load_lines(p, ls.drop_last());
        let l = ls.last();
        match l.number {
            Option::Some(n) => if n < MAX_LINES {
                p1.update(n as int, Option::Some(l))
            } else {
                p1
            },
            Option::None => p1,
        }
    }
}

/// The program image LOAD leaves behind for the given persisted text: the
/// spec-parsed lines stored into an empty image, or an empty image when
/// the text does not parse.
pub open spec fn load_prog_of(text: Seq<char>) -> Seq<Option<LineV>> {
    match sp_parse(text, 0, stmt_fuel_for(text, 0)) {
        Option::Some(Result::Ok(ls)) => load_lines(empty_program(), ls),
        _ => empty_program(),
    }
}

/// The output lines LOAD emits for the given persisted text: the rendered
/// fault when the text does not parse, then the closing notice either way.
pub open spec fn load_events_of(text: Seq<char>) -> Seq<EventV> {
    match sp_parse(text, 0, stmt_fuel_for(text, 0)) {
        Option::Some(Result::Err(e)) => seq![
            EventV::Line(render_syn(e)),
            EventV::Line("program loaded"@),
        ],
        _ => seq![EventV::Line("program loaded"@)],
    }
}

/// One parsed line against the machine: a numbered line inside the
/// address space is stored (never executed), a number outside it is an
/// illegal-line-number fault, and an unnumbered line executes as one
/// statement step, a run request carrying on as [`run_outcome`] of the
/// reset state.
#[verifier::opaque]
pub open spec fn eval_line(s: StateV, io: IoV, l: LineV, fuel: nat) -> (StateV, IoV, Result<
    OutcomeV,
    RunErrV,
>) {
    match l.number {
        Option::Some(num) => if num < MAX_LINES {
            (
                StateV { program: s.program.update(num as int, Option::Some(l)), ..s },
                io,
                Result::Ok(OutcomeV::Val(ValV::Null)),
            )
        } else {
            (s, io, Result::Err(RunErrV::IllegalLineNumber(dec_digits(num))))
        },
        Option::None => {
            let (s2, io2, res) = step_stmt(s, io, l.statement);
            match res {
                Result::Ok(OutcomeV::RunSignal) => run_outcome(reset_state(s2), io2, fuel),
                _ => (s2, io2, res),
            }
        },
    }
}

/// A whole submission's parsed lines against the machine, in order: each
/// line is evaluated as [`eval_line`]; a value other than the no-value is
/// emitted as an output line, a fault is emitted as an output line and the
/// remaining lines still run, and exhausted input or an exhausted step
/// budget stops the submission early and reports itself.
#[verifier::opaque]
pub open spec fn session_steps(s: StateV, io: IoV, ls: Seq<LineV>, fuel: nat) -> (StateV, IoV,
    SessionOutcome,
)
    decreases ls.len(),
{
    if ls.len() == 0 {
        (s, io, SessionOutcome::Done)
    } else {
        let (s1, io1, res) = eval_line(s, io, ls[0], fuel);
        match res {
            Result::Ok(OutcomeV::Val(v)) => {
                let io1b = if v == ValV::Null {
                    io1
                } else {
                    IoV { output: io1.output.push(EventV::Line(render_value(v))), ..io1 }
                };
                session_steps(s1, io1b, ls.drop_first(), fuel)
            },
            Result::Ok(OutcomeV::RunSignal) => session_steps(s1, io1, ls.drop_first(), fuel),
            Result::Ok(OutcomeV::OutOfInput) => (s1, io1, SessionOutcome::OutOfInput),
            Result::Ok(OutcomeV::OutOfSteps) => (s1, io1, SessionOutcome::OutOfSteps),
            Result::Err(e) => session_steps(
                s1,
                IoV { output: io1.output.push(EventV::Line(render_run(e))), ..io1 },
                ls.drop_first(),
                fuel,
            ),
        }
    }
}

/// How one whole submission to [`Interpreter::execute_line`] ended: fully
/// processed, or stopped early because the queued input lines or the step
/// budget ran out (the host can queue more and resubmit).
#[derive(Debug, Clone, Copy, PartialEq, Eq, Structural)]
pub enum SessionOutcome {
    Done,
    OutOfInput,
    OutOfSteps,
}

/// The mutable state one interpreter session owns: variable bindings, the
/// program store, the call-return stack, and the execution cursor.
pub struct RuntimeContext {
    pub variables: VarMap,
    pub program: Program,
    pub stack: Vec<usize>,
    pub current_line: usize,
}

impl View for RuntimeContext {
    type V = StateV;

    open spec fn view(&self) -> StateV {
        StateV {
            vars: self.variables@,
            program: self.program@,
            stack: self.stack@.map_values(|u: usize| u as int),
            cursor: self.current_line as int,
        }
    }
}

impl RuntimeContext {
    /// The context's invariant.
    pub open spec fn wf(&self) -> bool {
        &&& self.variables.wf()
        &&& self.program.wf()
    }
}

/// Whether the interpreter is inside a RUN.
#[derive(Debug, Clone, Copy, PartialEq, Eq, Structural)]
pub enum InterpreterState {
    Running,
    Stopped,
}

/// One interpreter session.
pub struct Interpreter {
    context: RuntimeContext,
    state: InterpreterState,
}

impl View for Interpreter {
    type V = StateV;

    closed spec fn view(&self) -> StateV {
        self.context@
    }
}

/// Relational comparison of two numbers.
fn compare_numbers(op: RelationOperator, a: i64, b: i64) -> (r: bool)
    ensures
        r == compare(op, a, b),
{
    match op {
        RelationOperator::Equal => a == b,
        RelationOperator::NotEqual => a != b,
        RelationOperator::LessThan => a < b,
        RelationOperator::LessThanOrEqual => a <= b,
        RelationOperator::GreaterThan => a > b,
        RelationOperator::GreaterThanOrEqual => a >= b,
    }
}

/// A faulting prefix decides PRINT's fault: once some prefix of the
/// expression list faults, the whole list faults the same way.
proof fn lemma_print_text_prefix_err(vars: Map<Seq<char>, ValV>, cur: nat, es: Seq<ExprV>, k: int)
    requires
        0 <= k <= es.len(),
        print_text(vars, cur, es.subrange(0, k)) is Err,
    ensures
        print_text(vars, cur, es) == print_text(vars, cur, es.subrange(0, k)),
    decreases es.len() - k,
{
    if k == es.len() {
        assert(es.subrange(0, k) =~= es);
    } else {
        assert(es.subrange(0, k + 1).drop_last() =~= es.subrange(0, k));
        assert(es.subrange(0, k + 1).len() >= 2) by {
            if es.subrange(0, k + 1).len() == 1 {
                assert(k == 0);
                assert(print_text(vars, cur, es.subrange(0, 0)) is Ok);
            }
        }
        lemma_print_text_prefix_err(vars, cur, es, k + 1);
    }
}


/// Every sequence is a prefix of itself.
proof fn lemma_prefix_refl(a: Seq<EventV>)
    ensures
        a.is_prefix_of(a),
{
    assert(a =~= a.subrange(0, a.len() as int));
}

/// A prefix stays a prefix when the longer sequence grows.
proof fn lemma_prefix_push(a: Seq<EventV>, b: Seq<EventV>, e: EventV)
    requires
        a.is_prefix_of(b),
    ensures
        a.is_prefix_of(b.push(e)),
{
    assert(a =~= b.push(e).subrange(0, a.len() as int)) by {
        assert(forall|i: int| 0 <= i < a.len() ==> a[i] == b.subrange(0, a.len() as int)[i]);
    }
}

/// Being a prefix carries across a middle sequence.
proof fn lemma_prefix_trans(a: Seq<EventV>, b: Seq<EventV>, c: Seq<EventV>)
    requires
        a.is_prefix_of(b),
        b.is_prefix_of(c),
    ensures
        a.is_prefix_of(c),
{
    assert(a =~= c.subrange(0, a.len() as int)) by {
        assert(forall|i: int| 0 <= i < a.len() ==> a[i] == b.subrange(0, a.len() as int)[i]);
        assert(forall|i: int| 0 <= i < b.len() ==> b[i] == c.subrange(0, b.len() as int)[i]);
    }
}

impl Interpreter {
    /// The session's invariant.
    pub closed spec fn wf(&self) -> bool {
        self.context.wf()
    }

    /// Whether the interpreter is inside a RUN.
    pub closed spec fn is_running(&self) -> bool {
        self.state is Running
    }

    /// A fresh session: no bindings, an empty program, the cursor at zero,
    /// stopped. The call-return stack begins with a single zero entry, which
    /// a stray RETURN before the first RUN pops harmlessly.
    pub fn new() -> (r: Interpreter)
        ensures
            r.wf(),
            r@.vars == Map::<Seq<char>, ValV>::empty(),
            r@.program == empty_program(),
            r@.stack =~= seq![0int],
            r@.cursor == 0,
            !r.is_running(),
    {
        let r = Interpreter {
            context: RuntimeContext {
                variables: VarMap::new(),
                program: Program::new(),
                stack: vec![0],
                current_line: 0,
            },
            state: InterpreterState::Stopped,
        };
        proof {
            assert(r@.program =~= empty_program());
            assert(r@.stack =~= seq![0int]);
        }
        r
    }

    /// Clears the bindings and the call stack and puts the cursor at zero;
    /// the program is kept.
    fn reset(&mut self)
        requires
            old(self).wf(),
        ensures
            final(self).wf(),
            final(self)@ == reset_state(old(self)@),
            final(self).is_running() == old(self).is_running(),
    {
        self.context.current_line = 0;
        self.context.stack = Vec::new();
        self.context.variables.clear();
        proof {
            assert(self@.stack =~= Seq::<int>::empty());
        }
    }

    /// Clears the program and resets the runtime state: what NEW does.
    fn new_program(&mut self)
        requires
            old(self).wf(),
        ensures
            final(self).wf(),
            final(self)@.vars == Map::<Seq<char>, ValV>::empty(),
            final(self)@.program =~= empty_program(),
            final(self)@.stack == Seq::<int>::empty(),
            final(self)@.cursor == 0,
            final(self).is_running() == old(self).is_running(),
    {
        self.context.program.clear();
        self.reset();
        proof {
            assert(self@.program =~= empty_program());
        }
    }

    /// Evaluates an expression against the current bindings.
    pub fn visit_expression(&self, expression: &Expression) -> (r: Result<Value, RuntimeError>)
        requires
            self.wf(),
        ensures
            res_view(r) == eval_expr(self@.vars, self@.cursor as nat, expr_view(*expression)),
        decreases expression,
    {
        match expression {
            Expression::Identifier(identifier) => {
                match self.context.variables.get(&identifier.name) {
                    Option::Some(value) => Result::Ok(value),
                    Option::None => Result::Err(
                        RuntimeError::UndefinedVariable(
                            identifier.name.clone(),
                            self.context.current_line,
                        ),
                    ),
                }
            },
            Expression::Literal(literal) => self.visit_literal(literal),
            Expression::UnaryExpression(unary) => self.visit_unary_expression(unary),
            Expression::BinaryExpression(binary) => self.visit_binary_expression(binary),
        }
    }

    /// The value of a literal: its text, or its number when that fits the
    /// numeric range.
    fn visit_literal(&self, literal: &Literal) -> (r: Result<Value, RuntimeError>)
        requires
            self.wf(),
        ensures
            res_view(r) == eval_expr(
                self@.vars,
                self@.cursor as nat,
                ExprV::Lit(lit_view(*literal)),
            ),
    {
        match literal {
            Literal::Number { value } => {
                if (*value as u64) <= (i64::MAX as u64) {
                    Result::Ok(Value::Number(*value as i64))
                } else {
                    Result::Err(RuntimeError::InvalidOperation(self.context.current_line))
                }
            },
            Literal::Text { value } => Result::Ok(Value::Text(value.clone())),
        }
    }

    /// The value of a signed term: `+` is the identity and `-` negates;
    /// both apply only to numbers.
    fn visit_unary_expression(&self, unary: &UnaryExpression) -> (r: Result<Value, RuntimeError>)
        requires
            self.wf(),
        ensures
            res_view(r) == eval_expr(
                self@.vars,
                self@.cursor as nat,
                expr_view(Expression::UnaryExpression(*unary)),
            ),
        decreases unary,
    {
        let value = match self.visit_expression(&unary.argument) {
            Result::Ok(v) => v,
            Result::Err(e) => {
                return Result::Err(e);
            },
        };
        match value {
            Value::Number(number) => match unary.operator {
                Option::Some(UnaryOperator::Plus) => Result::Ok(Value::Number(number)),
                Option::Some(UnaryOperator::Minus) => match (0i64).checked_sub(number) {
                    Option::Some(m) => Result::Ok(Value::Number(m)),
                    Option::None => Result::Err(
                        RuntimeError::InvalidOperation(self.context.current_line),
                    ),
                },
                Option::None => Result::Ok(Value::Number(number)),
            },
            _ => Result::Err(RuntimeError::InvalidOperation(self.context.current_line)),
        }
    }

    /// The value of an arithmetic combination: the four operators on
    /// numbers (overflow and division by zero fault), `+` as concatenation
    /// on text, and an invalid-operation fault for every other combination.
    fn visit_binary_expression(&self, binary: &BinaryExpression) -> (r: Result<Value, RuntimeError>)
        requires
            self.wf(),
        ensures
            res_view(r) == eval_expr(
                self@.vars,
                self@.cursor as nat,
                expr_view(Expression::BinaryExpression(*binary)),
            ),
        decreases binary,
    {
        let left = match self.visit_expression(&binary.left) {
            Result::Ok(v) => v,
            Result::Err(e) => {
                return Result::Err(e);
            },
        };
        let right = match self.visit_expression(&binary.right) {
            Result::Ok(v) => v,
            Result::Err(e) => {
                return Result::Err(e);
            },
        };
        match (left, right) {
            (Value::Number(a), Value::Number(b)) => {
                let c = match binary.operator {
                    ArithmeticOperator::Add => a.checked_add(b),
                    ArithmeticOperator::Subtract => a.checked_sub(b),
                    ArithmeticOperator::Multiply => a.checked_mul(b),
                    ArithmeticOperator::Divide => a.checked_div(b),
                };
                match c {
                    Option::Some(v) => Result::Ok(Value::Number(v)),
                    Option::None => Result::Err(
                        RuntimeError::InvalidOperation(self.context.current_line),
                    ),
                }
            },
            (Value::Text(a), Value::Text(b)) => {
                match binary.operator {
                    ArithmeticOperator::Add => Result::Ok(Value::Text(a.concat(b.as_str()))),
                    _ => Result::Err(RuntimeError::InvalidOperation(self.context.current_line)),
                }
            },
            _ => Result::Err(RuntimeError::InvalidOperation(self.context.current_line)),
        }
    }

    /// The one line of text a PRINT statement shows: each expression's
    /// value, left to right, joined with single spaces.
    fn visit_print_statement(&self, expressions: &Vec<Expression>) -> (r: Result<
        Value,
        RuntimeError,
    >)
        requires
            self.wf(),
        ensures
            res_view(r) == match print_text(
                self@.vars,
                self@.cursor as nat,
                expressions@.map_values(|e: Expression| expr_view(e)),
            ) {
                Result::Ok(t) => Result::Ok(ValV::Text(t)),
                Result::Err(e) => Result::Err(e),
            },
    {
        let ghost es = expressions@.map_values(|e: Expression| expr_view(e));
        let ghost vars = self@.vars;
        let ghost cur = self@.cursor as nat;
        let mut out = String::new();
        let mut i: usize = 0;
        proof {
            assert(es.subrange(0, 0) =~= Seq::<ExprV>::empty());
        }
        while i < expressions.len()
            invariant
                self.wf(),
                es == expressions@.map_values(|e: Expression| expr_view(e)),
                vars == self@.vars,
                cur == self@.cursor as nat,
                i <= expressions@.len(),
                print_text(vars, cur, es.subrange(0, i as int)) == Result::<
                    Seq<char>,
                    RunErrV,
                >::Ok(out@),
            decreases expressions@.len() - i,
        {
            proof {
                assert(es.subrange(0, i + 1 as int).drop_last() =~= es.subrange(0, i as int));
                assert(es.subrange(0, i + 1 as int).last() == es[i as int]);
                assert(es[i as int] == expr_view(expressions@[i as int]));
            }
            let value = match self.visit_expression(&expressions[i]) {
                Result::Ok(v) => v,
                Result::Err(e) => {
                    proof {
                        lemma_print_text_prefix_err(vars, cur, es, i + 1);
                    }
                    return Result::Err(e);
                },
            };
            let piece = value.render();
            if i > 0 {
                out.append(" ");
                proof {
                    reveal_strlit(" ");
                    assert(" "@ =~= seq![' ']);
                }
            }
            out.append(piece.as_str());
            i = i + 1;
        }
        proof {
            assert(es.subrange(0, es.len() as int) =~= es);
        }
        Result::Ok(Value::Text(out))
    }

    /// Sets the cursor to the value of the target expression; a target that
    /// is not a number inside the address space is an illegal-line-number
    /// fault.
    fn visit_goto_statement(&mut self, location: &Expression) -> (r: Result<Outcome, RuntimeError>)
        requires
            old(self).wf(),
        ensures
            final(self).wf(),
            final(self).is_running() == old(self).is_running(),
            ({
                let (s2, res) = goto_step(old(self)@, expr_view(*location));
                final(self)@ == s2 && outcome_res_view(r) == res
            }),
    {
        let value = match self.visit_expression(location) {
            Result::Ok(v) => v,
            Result::Err(e) => {
                return Result::Err(e);
            },
        };
        match value {
            Value::Number(n) => {
                if 0 <= n && n < (MAX_LINES as i64) {
                    self.context.current_line = n as usize;
                    proof {
                        assert(final(self)@ =~= (StateV { cursor: n as int, ..old(self)@ }));
                    }
                    Result::Ok(Outcome::Val(Value::Null))
                } else {
                    Result::Err(RuntimeError::IllegalLineNumber(i64_to_string(n)))
                }
            },
            other => Result::Err(RuntimeError::IllegalLineNumber(other.render())),
        }
    }

    /// Pushes the current cursor on the call-return stack, then jumps as
    /// GOTO does.
    fn visit_gosub_statement(&mut self, location: &Expression) -> (r: Result<Outcome, RuntimeError>)
        requires
            old(self).wf(),
        ensures
            final(self).wf(),
            final(self).is_running() == old(self).is_running(),
            ({
                let (s2, res) = goto_step(
                    StateV { stack: old(self)@.stack.push(old(self)@.cursor), ..old(self)@ },
                    expr_view(*location),
                );
                final(self)@ == s2 && outcome_res_view(r) == res
            }),
    {
        self.context.stack.push(self.context.current_line);
        proof {
            assert(self@.stack =~= old(self)@.stack.push(old(self)@.cursor));
            assert(self@ =~= (StateV {
                stack: old(self)@.stack.push(old(self)@.cursor),
                ..old(self)@
            }));
        }
        self.visit_goto_statement(location)
    }

    /// Pops the call-return stack into the cursor; with an empty stack this
    /// does nothing.
    fn visit_return_statement(&mut self) -> (r: Result<Outcome, RuntimeError>)
        requires
            old(self).wf(),
        ensures
            final(self).wf(),
            final(self).is_running() == old(self).is_running(),
            final(self)@ == (if old(self)@.stack.len() > 0 {
                StateV {
                    cursor: old(self)@.stack.last(),
                    stack: old(self)@.stack.drop_last(),
                    ..old(self)@
                }
            } else {
                old(self)@
            }),
            r matches Result::Ok(o) && o@ == OutcomeV::Val(ValV::Null),
    {
        match self.context.stack.pop() {
            Option::Some(location) => {
                self.context.current_line = location;
                proof {
                    assert(self@.stack =~= old(self)@.stack.drop_last());
                    assert(self@ =~= (StateV {
                        cursor: old(self)@.stack.last(),
                        stack: old(self)@.stack.drop_last(),
                        ..old(self)@
                    }));
                }
                Result::Ok(Outcome::Val(Value::Null))
            },
            Option::None => {
                proof {
                    assert(self@ =~= old(self)@);
                }
                Result::Ok(Outcome::Val(Value::Null))
            },
        }
    }

    /// Forces the cursor past the end of the address space, ending a run
    /// without a fault.
    fn visit_end_statement(&mut self) -> (r: Result<Outcome, RuntimeError>)
        requires
            old(self).wf(),
        ensures
            final(self).wf(),
            final(self).is_running() == old(self).is_running(),
            final(self)@ == (StateV { cursor: MAX_LINES as int, ..old(self)@ }),
            r matches Result::Ok(o) && o@ == OutcomeV::Val(ValV::Null),
    {
        self.context.current_line = MAX_LINES;
        proof {
            assert(self@ =~= (StateV { cursor: MAX_LINES as int, ..old(self)@ }));
        }
        Result::Ok(Outcome::Val(Value::Null))
    }

    /// Clears the program store and resets the runtime state.
    fn visit_new_statement(&mut self) -> (r: Result<Outcome, RuntimeError>)
        requires
            old(self).wf(),
        ensures
            final(self).wf(),
            final(self).is_running() == old(self).is_running(),
            final(self)@ == (StateV {
                vars: Map::<Seq<char>, ValV>::empty(),
                program: empty_program(),
                stack: Seq::<int>::empty(),
                cursor: 0,
            }),
            r matches Result::Ok(o) && o@ == OutcomeV::Val(ValV::Null),
    {
        self.new_program();
        proof {
            assert(self@ =~= (StateV {
                vars: Map::<Seq<char>, ValV>::empty(),
                program: empty_program(),
                stack: Seq::<int>::empty(),
                cursor: 0,
            }));
        }
        Result::Ok(Outcome::Val(Value::Null))
    }

    /// The text LIST shows: every stored line, ascending by number.
    fn visit_list_statement(&self) -> (r: Result<Outcome, RuntimeError>)
        requires
            self.wf(),
        ensures
            r matches Result::Ok(o) && o@ == OutcomeV::Val(
                ValV::Text(render_listing(stored_lines(self@.program))),
            ),
    {
        Result::Ok(Outcome::Val(Value::Text(self.context.program.print())))
    }

    /// The text HELP shows: one line for each statement form.
    fn visit_help_statement(&self) -> (r: Result<Outcome, RuntimeError>)
        ensures
            r matches Result::Ok(o) && o@ == OutcomeV::Val(ValV::Text(help_text())),
    {
        Result::Ok(
            Outcome::Val(
                Value::Text(
                    String::from_str(
                        "PRINT <expression>[, <expression>...]\nINPUT <variable>[, <variable>...]\nIF <condition> THEN <statement>\nLET <variable> = <expression>\nGOTO <line>\nGOSUB <line>\nREM <comment>\nRETURN\nEND\nCLS\nLIST\nRUN\nNEW",
                    ),
                ),
            ),
        )
    }

    /// Evaluates the right-hand expression and (re)binds the name; the
    /// first assignment creates the binding.
    fn visit_var_statement(&mut self, declaration: &VarDeclaration) -> (r: Result<
        Outcome,
        RuntimeError,
    >)
        requires
            old(self).wf(),
        ensures
            final(self).wf(),
            final(self).is_running() == old(self).is_running(),
            match eval_expr(old(self)@.vars, old(self)@.cursor as nat, expr_view(declaration.value)) {
                Result::Ok(v) => final(self)@ == (StateV {
                    vars: old(self)@.vars.insert(declaration.name@, v),
                    ..old(self)@
                }) && (r matches Result::Ok(o) && o@ == OutcomeV::Val(ValV::Null)),
                Result::Err(e) => final(self)@ == old(self)@ && (r matches Result::Err(err)
                    && err@ == e),
            },
    {
        let value = match self.visit_expression(&declaration.value) {
            Result::Ok(v) => v,
            Result::Err(e) => {
                return Result::Err(e);
            },
        };
        self.context.variables.insert(&declaration.name, value);
        proof {
            assert(final(self)@ =~= (StateV {
                vars: old(self)@.vars.insert(
                    declaration.name@,
                    match eval_expr(
                        old(self)@.vars,
                        old(self)@.cursor as nat,
                        expr_view(declaration.value),
                    ) {
                        Result::Ok(v) => v,
                        Result::Err(_) => ValV::Null,
                    },
                ),
                ..old(self)@
            }));
        }
        Result::Ok(Outcome::Val(Value::Null))
    }

    /// Asks the host to clear the display surface.
    fn visit_cls_statement(&self, io: &mut IoBuffer) -> (r: Result<Outcome, RuntimeError>)
        ensures
            final(io)@ == (IoV {
                output: old(io)@.output.push(EventV::ClearScreen),
                ..old(io)@
            }),
            r matches Result::Ok(o) && o@ == OutcomeV::Val(ValV::Null),
    {
        io.output.push(OutputEvent::ClearScreen);
        proof {
            assert(final(io)@ =~= (IoV {
                output: old(io)@.output.push(EventV::ClearScreen),
                ..old(io)@
            }));
        }
        Result::Ok(Outcome::Val(Value::Null))
    }

    /// Hands the host the serialized program text to persist.
    fn visit_save_statement(&self, io: &mut IoBuffer) -> (r: Result<Outcome, RuntimeError>)
        requires
            self.wf(),
        ensures
            final(io)@ == (IoV {
                output: old(io)@.output.push(
                    EventV::Save(render_listing(stored_lines(self@.program))),
                ),
                ..old(io)@
            }),
            r matches Result::Ok(o) && o@ == OutcomeV::Val(ValV::Null),
    {
        io.output.push(OutputEvent::Save(self.context.program.print()));
        proof {
            assert(final(io)@ =~= (IoV {
                output: old(io)@.output.push(
                    EventV::Save(render_listing(stored_lines(self@.program))),
                ),
                ..old(io)@
            }));
        }
        Result::Ok(Outcome::Val(Value::Null))
    }

    /// For each target variable in order: asks the host for a line with a
    /// prompt, echoes what came in, parses it as a standalone expression,
    /// evaluates it, and binds the result to the variable. When the queued
    /// input lines run out, reports that instead of blocking; a malformed
    /// response surfaces as a wrapped syntax fault. The whole effect is
    /// exactly [`input_steps`].
    fn visit_input_statement(&mut self, variables: &Vec<Identifier>, io: &mut IoBuffer) -> (r:
        Result<Outcome, RuntimeError>)
        requires
            old(self).wf(),
            old(io)@.next_input <= old(io)@.inputs.len(),
        ensures
            final(self).wf(),
            final(self).is_running() == old(self).is_running(),
            final(io)@.inputs == old(io)@.inputs,
            final(io)@.load_text == old(io)@.load_text,
            old(io)@.next_input <= final(io)@.next_input,
            final(io)@.next_input <= final(io)@.inputs.len(),
            old(io)@.output.is_prefix_of(final(io)@.output),
            final(self)@.program == old(self)@.program,
            final(self)@.stack == old(self)@.stack,
            final(self)@.cursor == old(self)@.cursor,
            ({
                let (vars2, next2, out2, res) = input_steps(
                    old(self)@.vars,
                    old(self)@.cursor as nat,
                    variables@.map_values(|v: Identifier| v.name@),
                    old(io)@.inputs,
                    old(io)@.next_input,
                    old(io)@.output,
                );
                final(self)@.vars == vars2 && final(io)@.next_input == next2 && final(io)@.output
                    == out2 && outcome_res_view(r) == res
            }),
    {
        let ghost names = variables@.map_values(|v: Identifier| v.name@);
        let ghost vars0 = old(self)@.vars;
        let ghost cur0 = old(self)@.cursor as nat;
        let ghost inputs0 = old(io)@.inputs;
        let ghost next0 = old(io)@.next_input;
        let ghost out0 = old(io)@.output;
        let mut i: usize = 0;
        proof {
            assert(names.subrange(0, names.len() as int) =~= names);
        }
        while i < variables.len()
            invariant
                self.wf(),
                self.is_running() == old(self).is_running(),
                i <= variables@.len(),
                names == variables@.map_values(|v: Identifier| v.name@),
                vars0 == old(self)@.vars,
                cur0 == old(self)@.cursor as nat,
                inputs0 == old(io)@.inputs,
                next0 == old(io)@.next_input,
                out0 == old(io)@.output,
                io@.inputs == old(io)@.inputs,
                io@.load_text == old(io)@.load_text,
                old(io)@.next_input <= io@.next_input,
                io@.next_input <= io@.inputs.len(),
                old(io)@.output.is_prefix_of(io@.output),
                self@.program == old(self)@.program,
                self@.stack == old(self)@.stack,
                self@.cursor == old(self)@.cursor,
                input_steps(vars0, cur0, names, inputs0, next0, out0) == input_steps(
                    self@.vars,
                    cur0,
                    names.subrange(i as int, names.len() as int),
                    inputs0,
                    io@.next_input,
                    io@.output,
                ),
            decreases variables@.len() - i,
        {
            let ghost rest = names.subrange(i as int, names.len() as int);
            proof {
                assert(rest[0] == names[i as int]);
                assert(names[i as int] == variables@[i as int].name@);
                assert(rest.drop_first() =~= names.subrange(i + 1 as int, names.len() as int));
                reveal_strlit("? ");
                assert("? "@ =~= seq!['?', ' ']);
            }
            let ghost out_pre = io@.output;
            io.output.push(OutputEvent::Prompt(variables[i].name.clone().concat("? ")));
            proof {
                assert(io@.output =~= out_pre.push(
                    EventV::Prompt(variables@[i as int].name@ + seq!['?', ' ']),
                ));
                lemma_prefix_refl(out_pre);
                lemma_prefix_push(out_pre, out_pre, io.output@.last()@);
                lemma_prefix_trans(old(io)@.output, out_pre, io@.output);
            }
            if io.next_input >= io.inputs.len() {
                return Result::Ok(Outcome::OutOfInput);
            }
            let line = io.inputs[io.next_input].clone();
            io.next_input = io.next_input + 1;
            let ghost out_mid = io@.output;
            io.output.push(
                OutputEvent::Line(variables[i].name.clone().concat("? ").concat(line.as_str())),
            );
            proof {
                assert(io@.output =~= out_mid.push(
                    EventV::Line(variables@[i as int].name@ + seq!['?', ' '] + line@),
                ));
                lemma_prefix_refl(out_mid);
                lemma_prefix_push(out_mid, out_mid, io.output@.last()@);
                lemma_prefix_trans(old(io)@.output, out_mid, io@.output);
            }
            let mut parser = Parser::new(line.as_str());
            let expression = match parser.parse_expression() {
                Result::Ok(e) => e,
                Result::Err(error) => {
                    return Result::Err(RuntimeError::SyntaxError(error));
                },
            };
            let value = match self.visit_expression(&expression) {
                Result::Ok(v) => v,
                Result::Err(e) => {
                    return Result::Err(e);
                },
            };
            self.context.variables.insert(&variables[i].name, value);
            i = i + 1;
        }
        proof {
            assert(names.subrange(names.len() as int, names.len() as int)
                =~= Seq::<Seq<char>>::empty());
        }
        Result::Ok(Outcome::Val(Value::Null))
    }

    /// Replaces the whole program with the lines parsed from `source`:
    /// equivalent to NEW followed by storing every parsed numbered line,
    /// exactly [`load_prog_of`]. Unnumbered lines, and lines numbered
    /// outside the address space, are not stored. A parse fault is
    /// reported as an output line and leaves the program empty; either way
    /// a closing notice is emitted, exactly [`load_events_of`].
    pub fn load_program(&mut self, source: &str, io: &mut IoBuffer)
        requires
            old(self).wf(),
        ensures
            final(self).wf(),
            final(self).is_running() == old(self).is_running(),
            final(self)@ == (StateV {
                vars: Map::<Seq<char>, ValV>::empty(),
                program: load_prog_of(source@),
                stack: Seq::<int>::empty(),
                cursor: 0,
            }),
            final(io)@ == (IoV {
                output: old(io)@.output + load_events_of(source@),
                ..old(io)@
            }),
    {
        proof {
            lemma_sp_parse_some(source@, 0, stmt_fuel_for(source@, 0));
        }
        self.new_program();
        let mut parser = Parser::new(source);
        match parser.parse() {
            Result::Ok(parsed) => {
                let ghost ls = parsed@.map_values(|l: Line| line_view(l));
                let mut i: usize = 0;
                while i < parsed.len()
                    invariant
                        self.wf(),
                        self.is_running() == old(self).is_running(),
                        i <= parsed@.len(),
                        ls == parsed@.map_values(|l: Line| line_view(l)),
                        self@.vars == Map::<Seq<char>, ValV>::empty(),
                        self@.stack == Seq::<int>::empty(),
                        self@.cursor == 0,
                        self@.program == load_lines(empty_program(), ls.subrange(0, i as int)),
                    decreases parsed@.len() - i,
                {
                    proof {
                        assert(ls.subrange(0, i + 1 as int).drop_last()
                            =~= ls.subrange(0, i as int));
                        assert(ls.subrange(0, i + 1 as int).last() == ls[i as int]);
                    }
                    let line = parsed[i].duplicate();
                    let store = match line.number {
                        Option::Some(n) => n < MAX_LINES,
                        Option::None => false,
                    };
                    if store {
                        self.context.program.set(line);
                    }
                    i = i + 1;
                }
                proof {
                    assert(ls.subrange(0, ls.len() as int) =~= ls);
                    assert(self@.program == load_prog_of(source@));
                }
            },
            Result::Err(error) => {
                let ghost out0 = io@.output;
                io.output.push(OutputEvent::Line(error.render()));
                proof {
                    assert(io@.output =~= out0.push(io.output@.last()@));
                }
            },
        }
        let ghost out1 = io@.output;
        io.output.push(OutputEvent::Line(String::from_str("program loaded")));
        proof {
            assert(io@.output =~= out1.push(io.output@.last()@));
            assert(final(io)@.output =~= old(io)@.output + load_events_of(source@));
            assert(final(io)@ =~= (IoV {
                output: old(io)@.output + load_events_of(source@),
                ..old(io)@
            }));
            assert(final(self)@ =~= (StateV {
                vars: Map::<Seq<char>, ValV>::empty(),
                program: load_prog_of(source@),
                stack: Seq::<int>::empty(),
                cursor: 0,
            }));
        }
    }

    /// LOAD: re-parses the persisted program text the host made available,
    /// if any, through the same pipeline as interactive input, replacing
    /// the program store entirely; with nothing available it does nothing.
    fn visit_load_statement(&mut self, io: &mut IoBuffer) -> (r: Result<Outcome, RuntimeError>)
        requires
            old(self).wf(),
        ensures
            final(self).wf(),
            final(self).is_running() == old(self).is_running(),
            r matches Result::Ok(o) && o@ == OutcomeV::Val(ValV::Null),
            match old(io)@.load_text {
                Option::None => final(self)@ == old(self)@ && final(io)@ == old(io)@,
                Option::Some(text) => final(self)@ == (StateV {
                    vars: Map::<Seq<char>, ValV>::empty(),
                    program: load_prog_of(text),
                    stack: Seq::<int>::empty(),
                    cursor: 0,
                }) && final(io)@ == (IoV {
                    output: old(io)@.output + load_events_of(text),
                    ..old(io)@
                }),
            },
    {
        let text = match &io.load_text {
            Option::Some(t) => Option::Some(t.clone()),
            Option::None => Option::None,
        };
        match text {
            Option::None => Result::Ok(Outcome::Val(Value::Null)),
            Option::Some(t) => {
                self.load_program(t.as_str(), io);
                Result::Ok(Outcome::Val(Value::Null))
            },
        }
    }

    /// IF: evaluates both sides of the condition, which must both be
    /// numbers; when the comparison holds the one nested statement runs,
    /// and otherwise nothing happens.
    fn visit_if_statement(
        &mut self,
        condition: &IfCondition,
        then_branch: &Box<Statement>,
        io: &mut IoBuffer,
    ) -> (r: Result<Outcome, RuntimeError>)
        requires
            old(self).wf(),
            old(io)@.next_input <= old(io)@.inputs.len(),
        ensures
            final(self).wf(),
            final(self).is_running() == old(self).is_running(),
            final(io)@.inputs == old(io)@.inputs,
            final(io)@.load_text == old(io)@.load_text,
            old(io)@.next_input <= final(io)@.next_input,
            final(io)@.next_input <= final(io)@.inputs.len(),
            old(io)@.output.is_prefix_of(final(io)@.output),
            ({
                let stv = StmtV::If(
                    condition.operator,
                    expr_view(condition.left),
                    expr_view(condition.right),
                    Box::new(stmt_view(**then_branch)),
                );
                let (s2, io2, res) = step_stmt(old(self)@, old(io)@, stv);
                final(self)@ == s2 && final(io)@ == io2 && outcome_res_view(r) == res
            }),
        decreases then_branch, 1int,
    {
        proof {
            lemma_prefix_refl(old(io)@.output);
        }
        let left = match self.visit_expression(&condition.left) {
            Result::Ok(v) => v,
            Result::Err(e) => {
                return Result::Err(e);
            },
        };
        let right = match self.visit_expression(&condition.right) {
            Result::Ok(v) => v,
            Result::Err(e) => {
                return Result::Err(e);
            },
        };
        match (left, right) {
            (Value::Number(a), Value::Number(b)) => {
                if compare_numbers(condition.operator, a, b) {
                    self.visit_statement(then_branch, io)
                } else {
                    Result::Ok(Outcome::Val(Value::Null))
                }
            },
            _ => Result::Err(RuntimeError::InvalidOperation(self.context.current_line)),
        }
    }

    /// Executes one statement against the runtime context: exactly
    /// [`step_stmt`], for every statement variant.
    pub fn visit_statement(&mut self, statement: &Statement, io: &mut IoBuffer) -> (r: Result<
        Outcome,
        RuntimeError,
    >)
        requires
            old(self).wf(),
            old(io)@.next_input <= old(io)@.inputs.len(),
        ensures
            final(self).wf(),
            final(self).is_running() == old(self).is_running(),
            final(io)@.inputs == old(io)@.inputs,
            final(io)@.load_text == old(io)@.load_text,
            old(io)@.next_input <= final(io)@.next_input,
            final(io)@.next_input <= final(io)@.inputs.len(),
            old(io)@.output.is_prefix_of(final(io)@.output),
            ({
                let (s2, io2, res) = step_stmt(old(self)@, old(io)@, stmt_view(*statement));
                final(self)@ == s2 && final(io)@ == io2 && outcome_res_view(r) == res
            }),
        decreases statement, 0int,
    {
        proof {
            lemma_prefix_refl(old(io)@.output);
        }
        match statement {
            Statement::IfStatement { condition, then_branch } => self.visit_if_statement(
                condition,
                then_branch,
                io,
            ),
            Statement::PrintStatement { expressions } => {
                match self.visit_print_statement(expressions) {
                    Result::Ok(v) => Result::Ok(Outcome::Val(v)),
                    Result::Err(e) => Result::Err(e),
                }
            },
            Statement::VarStatement { declaration } => self.visit_var_statement(declaration),
            Statement::InputStatement { variables } => {
                let r = self.visit_input_statement(variables, io);
                proof {
                    let (v2, n2, o2, res) = input_steps(
                        old(self)@.vars,
                        old(self)@.cursor as nat,
                        variables@.map_values(|v: Identifier| v.name@),
                        old(io)@.inputs,
                        old(io)@.next_input,
                        old(io)@.output,
                    );
                    assert(self@ =~= (StateV { vars: v2, ..old(self)@ }));
                    assert(io@ =~= (IoV { next_input: n2, output: o2, ..old(io)@ }));
                }
                r
            },
            Statement::GoToStatement { location } => self.visit_goto_statement(location),
            Statement::GoSubStatement { location } => self.visit_gosub_statement(location),
            Statement::EndStatement => self.visit_end_statement(),
            Statement::ListStatement => self.visit_list_statement(),
            Statement::RunStatement => Result::Ok(Outcome::RunSignal),
            Statement::ReturnStatement => self.visit_return_statement(),
            Statement::Empty => Result::Ok(Outcome::Val(Value::Null)),
            Statement::ClsStatement => self.visit_cls_statement(io),
            Statement::HelpStatement => self.visit_help_statement(),
            Statement::NewStatement => self.visit_new_statement(),
            Statement::RemStatement => Result::Ok(Outcome::Val(Value::Null)),
            Statement::LoadStatement => {
                let r = self.visit_load_statement(io);
                proof {
                    match old(io)@.load_text {
                        Option::Some(text) => {
                            assert(io@.output.is_prefix_of(io@.output) && old(io)@.output
                                .is_prefix_of(io@.output)) by {
                                lemma_prefix_refl(old(io)@.output);
                                assert(old(io)@.output =~= io@.output.subrange(
                                    0,
                                    old(io)@.output.len() as int,
                                ));
                                lemma_prefix_refl(io@.output);
                            }
                        },
                        Option::None => {},
                    }
                }
                r
            },
            Statement::SaveStatement => self.visit_save_statement(io),
        }
    }

    /// RUN: resets the bindings, the call stack and the cursor, then walks
    /// the stored program, executing each stored line and moving the cursor
    /// past it first, so a jump taken by the statement decides the next
    /// fetch. Ends when the cursor leaves the address space, when a fault
    /// aborts the run, when queued input runs out, or, since a stored
    /// program may loop forever, after `fuel` lines; the interpreter is
    /// stopped on every ending. The whole run is exactly [`run_outcome`]
    /// of the reset state.
    pub fn visit_run_statement(&mut self, io: &mut IoBuffer, fuel: usize) -> (r: Result<
        Outcome,
        RuntimeError,
    >)
        requires
            old(self).wf(),
            old(io)@.next_input <= old(io)@.inputs.len(),
        ensures
            final(self).wf(),
            !final(self).is_running(),
            final(io)@.inputs == old(io)@.inputs,
            final(io)@.load_text == old(io)@.load_text,
            old(io)@.next_input <= final(io)@.next_input,
            final(io)@.next_input <= final(io)@.inputs.len(),
            old(io)@.output.is_prefix_of(final(io)@.output),
            ({
                let (s2, io2, res) = run_outcome(reset_state(old(self)@), old(io)@, fuel as nat);
                final(self)@ == s2 && final(io)@ == io2 && outcome_res_view(r) == res
            }),
    {
        self.state = InterpreterState::Running;
        self.reset();
        let ghost s0 = self@;
        let ghost io0 = io@;
        let ghost mut n: nat = 0;
        let mut steps_left = fuel;
        proof {
            lemma_prefix_refl(old(io)@.output);
            assert(s0 == reset_state(old(self)@));
        }
        while self.context.current_line < MAX_LINES
            invariant
                self.wf(),
                self.is_running(),
                io@.inputs == old(io)@.inputs,
                io@.load_text == old(io)@.load_text,
                old(io)@.next_input <= io@.next_input,
                io@.next_input <= io@.inputs.len(),
                old(io)@.output.is_prefix_of(io@.output),
                s0 == reset_state(old(self)@),
                io0 == old(io)@,
                run_steps(s0, io0, n) == RunStateV::Going(self@, io@),
                n + steps_left == fuel,
            decreases steps_left,
        {
            if steps_left == 0 {
                proof {
                    assert(run_steps(s0, io0, fuel as nat) == RunStateV::Going(self@, io@));
                }
                self.state = InterpreterState::Stopped;
                return Result::Ok(Outcome::OutOfSteps);
            }
            steps_left = steps_left - 1;
            let ghost s_prev = self@;
            let ghost io_prev = io@;
            let line = self.context.program.get(self.context.current_line);
            self.context.current_line = self.context.current_line + 1;
            let ghost s1 = self@;
            proof {
                assert(s1 =~= (StateV { cursor: s_prev.cursor + 1, ..s_prev }));
            }
            match line {
                Option::None => {
                    proof {
                        assert(run_step(s_prev, io_prev) == RunStateV::Going(s1, io@));
                        assert(run_steps(s0, io0, n + 1) == RunStateV::Going(s1, io@));
                        n = n + 1;
                    }
                },
                Option::Some(l) => {
                    let ghost stv = stmt_view(l.statement);
                    proof {
                        assert(s_prev.program[s_prev.cursor] matches Option::Some(sl)
                            && sl.statement == stv);
                        lemma_step_not_outofsteps(s1, io_prev, stv);
                    }
                    let value = match self.visit_statement(&l.statement, io) {
                        Result::Ok(v) => v,
                        Result::Err(e) => {
                            proof {
                                assert(run_step(s_prev, io_prev) == RunStateV::DoneErr(
                                    self@,
                                    io@,
                                    e@,
                                ));
                                assert(run_steps(s0, io0, n + 1) == RunStateV::DoneErr(
                                    self@,
                                    io@,
                                    e@,
                                ));
                                lemma_run_steps_absorb(s0, io0, n + 1, fuel as nat);
                            }
                            self.state = InterpreterState::Stopped;
                            return Result::Err(e);
                        },
                    };
                    let ghost s2 = self@;
                    let ghost io2 = io@;
                    match value {
                        Outcome::Val(v) => {
                            match v {
                                Value::Null => {
                                    proof {
                                        assert(run_step(s_prev, io_prev) == RunStateV::Going(
                                            s2,
                                            io2,
                                        ));
                                        n = n + 1;
                                    }
                                },
                                v2 => {
                                    let ghost out2 = io@.output;
                                    io.output.push(OutputEvent::Line(v2.render()));
                                    proof {
                                        assert(io@.output =~= out2.push(io.output@.last()@));
                                        lemma_prefix_refl(out2);
                                        lemma_prefix_push(out2, out2, io.output@.last()@);
                                        lemma_prefix_trans(old(io)@.output, out2, io@.output);
                                        assert(io@ =~= (IoV {
                                            output: io2.output.push(
                                                EventV::Line(render_value(v2@)),
                                            ),
                                            ..io2
                                        }));
                                        assert(run_step(s_prev, io_prev) == RunStateV::Going(
                                            s2,
                                            io@,
                                        ));
                                        n = n + 1;
                                    }
                                },
                            }
                        },
                        Outcome::RunSignal => {
                            self.reset();
                            proof {
                                assert(self@ == reset_state(s2));
                                assert(run_step(s_prev, io_prev) == RunStateV::Going(self@, io2));
                                n = n + 1;
                            }
                        },
                        Outcome::OutOfInput => {
                            proof {
                                assert(run_step(s_prev, io_prev) == RunStateV::DoneInput(
                                    self@,
                                    io@,
                                ));
                                assert(run_steps(s0, io0, n + 1) == RunStateV::DoneInput(
                                    self@,
                                    io@,
                                ));
                                lemma_run_steps_absorb(s0, io0, n + 1, fuel as nat);
                            }
                            self.state = InterpreterState::Stopped;
                            return Result::Ok(Outcome::OutOfInput);
                        },
                        Outcome::OutOfSteps => {
                            proof {
                                assert(false);
                            }
                            self.state = InterpreterState::Stopped;
                            return Result::Ok(Outcome::OutOfSteps);
                        },
                    }
                },
            }
        }
        proof {
            if n < fuel as nat {
                assert(run_step(self@, io@) == RunStateV::DoneOk(self@, io@));
                assert(run_steps(s0, io0, n + 1) == RunStateV::DoneOk(self@, io@));
                lemma_run_steps_absorb(s0, io0, n + 1, fuel as nat);
            }
        }
        self.state = InterpreterState::Stopped;
        Result::Ok(Outcome::Val(Value::Null))
    }

    /// One parsed line: a numbered line is stored (a number outside the
    /// address space is an illegal-line-number fault, reported through the
    /// same fault variant as a bad jump target, whose fixed wording names
    /// GOTO and GOSUB), and an unnumbered line executes immediately, a RUN
    /// request starting the run loop with the given step budget. Exactly
    /// [`eval_line`].
    pub fn eval(&mut self, ast: Line, io: &mut IoBuffer, fuel: usize) -> (r: Result<
        Outcome,
        RuntimeError,
    >)
        requires
            old(self).wf(),
            old(io)@.next_input <= old(io)@.inputs.len(),
        ensures
            final(self).wf(),
            final(io)@.inputs == old(io)@.inputs,
            final(io)@.load_text == old(io)@.load_text,
            old(io)@.next_input <= final(io)@.next_input,
            final(io)@.next_input <= final(io)@.inputs.len(),
            old(io)@.output.is_prefix_of(final(io)@.output),
            ({
                let (s2, io2, res) = eval_line(old(self)@, old(io)@, line_view(ast), fuel as nat);
                final(self)@ == s2 && final(io)@ == io2 && outcome_res_view(r) == res
            }),
    {
        proof {
            reveal(eval_line);
            lemma_prefix_refl(old(io)@.output);
        }
        match ast.number {
            Option::Some(n) => {
                if n < MAX_LINES {
                    self.context.program.set(ast);
                    proof {
                        assert(final(self)@ =~= (StateV {
                            program: old(self)@.program.update(
                                n as int,
                                Option::Some(line_view(ast)),
                            ),
                            ..old(self)@
                        }));
                    }
                    Result::Ok(Outcome::Val(Value::Null))
                } else {
                    Result::Err(RuntimeError::IllegalLineNumber(usize_to_string(n)))
                }
            },
            Option::None => {
                let value = match self.visit_statement(&ast.statement, io) {
                    Result::Ok(v) => v,
                    Result::Err(e) => {
                        return Result::Err(e);
                    },
                };
                match value {
                    Outcome::RunSignal => self.visit_run_statement(io, fuel),
                    other => Result::Ok(other),
                }
            },
        }
    }

    /// One whole submission from the host: parses `source`, stores its
    /// numbered lines, executes its direct commands in order, and reports
    /// every fault as an output line, carrying on with the remaining lines
    /// of the submission. A parse fault is reported as one output line and
    /// aborts the whole submission with nothing stored. Reports early when
    /// queued input or the step budget ran out. Exactly: a parse fault as
    /// described, else [`session_steps`] over the spec-parsed lines.
    #[verifier::rlimit(100)]
    #[verifier::spinoff_prover]
    pub fn execute_line(&mut self, source: &str, io: &mut IoBuffer, fuel: usize) -> (r:
        SessionOutcome)
        requires
            old(self).wf(),
            old(io)@.next_input <= old(io)@.inputs.len(),
        ensures
            final(self).wf(),
            final(io)@.inputs == old(io)@.inputs,
            final(io)@.load_text == old(io)@.load_text,
            old(io)@.next_input <= final(io)@.next_input,
            final(io)@.next_input <= final(io)@.inputs.len(),
            old(io)@.output.is_prefix_of(final(io)@.output),
            match crate::parser::sp_parse(source@, 0, stmt_fuel_for(source@, 0)) {
                Option::Some(Result::Err(e)) => final(self)@ == old(self)@ && final(io)@ == (IoV {
                    output: old(io)@.output.push(EventV::Line(render_syn(e))),
                    ..old(io)@
                }) && r == SessionOutcome::Done,
                Option::Some(Result::Ok(ls)) => ({
                    let (s2, io2, outcome) = session_steps(old(self)@, old(io)@, ls, fuel as nat);
                    final(self)@ == s2 && final(io)@ == io2 && r == outcome
                }),
                Option::None => true,
            },
    {
        let ghost s0v = old(self)@;
        let ghost io0 = old(io)@;
        proof {
            lemma_prefix_refl(old(io)@.output);
            lemma_sp_parse_some(source@, 0, stmt_fuel_for(source@, 0));
        }
        let mut parser = Parser::new(source);
        let parsed = match parser.parse() {
            Result::Ok(parsed) => parsed,
            Result::Err(e) => {
                let ghost out0 = io@.output;
                io.output.push(OutputEvent::Line(e.render()));
                proof {
                    assert(io@.output =~= out0.push(io.output@.last()@));
                    lemma_prefix_push(out0, out0, io.output@.last()@);
                    assert(io@ =~= (IoV {
                        output: old(io)@.output.push(EventV::Line(render_syn(e@))),
                        ..old(io)@
                    }));
                }
                return SessionOutcome::Done;
            },
        };
        let ghost ls = parsed@.map_values(|l: Line| line_view(l));
        let mut i: usize = 0;
        proof {
            assert(ls.subrange(0, ls.len() as int) =~= ls);
        }
        while i < parsed.len()
            invariant
                self.wf(),
                i <= parsed@.len(),
                ls == parsed@.map_values(|l: Line| line_view(l)),
                s0v == old(self)@,
                io0 == old(io)@,
                crate::parser::sp_parse(source@, 0, stmt_fuel_for(source@, 0)) == Option::Some(
                    Result::<Seq<LineV>, SynErrV>::Ok(ls),
                ),
                io@.inputs == old(io)@.inputs,
                io@.load_text == old(io)@.load_text,
                old(io)@.next_input <= io@.next_input,
                io@.next_input <= io@.inputs.len(),
                old(io)@.output.is_prefix_of(io@.output),
                session_steps(s0v, io0, ls, fuel as nat) == session_steps(
                    self@,
                    io@,
                    ls.subrange(i as int, ls.len() as int),
                    fuel as nat,
                ),
            decreases parsed@.len() - i,
        {
            let ghost rest = ls.subrange(i as int, ls.len() as int);
            proof {
                reveal(session_steps);
                assert(rest[0] == ls[i as int]);
                assert(ls[i as int] == line_view(parsed@[i as int]));
                assert(rest.drop_first() =~= ls.subrange(i + 1 as int, ls.len() as int));
            }
            let ghost prev_s = self@;
            let ghost prev_io = io@;
            let line = parsed[i].duplicate();
            match self.eval(line, io, fuel) {
                Result::Ok(Outcome::Val(v)) => {
                    match v {
                        Value::Null => {},
                        v2 => {
                            let ghost out1 = io@.output;
                            io.output.push(OutputEvent::Line(v2.render()));
                            proof {
                                assert(io@.output =~= out1.push(io.output@.last()@));
                                lemma_prefix_refl(out1);
                                lemma_prefix_push(out1, out1, io.output@.last()@);
                                lemma_prefix_trans(old(io)@.output, out1, io@.output);
                                assert(io@ =~= (IoV { output: out1.push(
                                    EventV::Line(render_value(v2@)),
                                ), ..io@ }));
                            }
                        },
                    }
                },
                Result::Ok(Outcome::RunSignal) => {},
                Result::Ok(Outcome::OutOfInput) => {
                    proof {
                        let t = eval_line(prev_s, prev_io, rest[0], fuel as nat);
                        assert(self@ == t.0 && io@ == t.1);
                        assert(session_steps(prev_s, prev_io, rest, fuel as nat) == (
                            t.0,
                            t.1,
                            SessionOutcome::OutOfInput,
                        ));
                    }
                    return SessionOutcome::OutOfInput;
                },
                Result::Ok(Outcome::OutOfSteps) => {
                    proof {
                        let t = eval_line(prev_s, prev_io, rest[0], fuel as nat);
                        assert(self@ == t.0 && io@ == t.1);
                        assert(session_steps(prev_s, prev_io, rest, fuel as nat) == (
                            t.0,
                            t.1,
                            SessionOutcome::OutOfSteps,
                        ));
                    }
                    return SessionOutcome::OutOfSteps;
                },
                Result::Err(e) => {
                    let ghost out1 = io@.output;
                    io.output.push(OutputEvent::Line(e.render()));
                    proof {
                        assert(io@.output =~= out1.push(io.output@.last()@));
                        lemma_prefix_refl(out1);
                        lemma_prefix_push(out1, out1, io.output@.last()@);
                        lemma_prefix_trans(old(io)@.output, out1, io@.output);
                        assert(io@ =~= (IoV { output: out1.push(EventV::Line(render_run(e@))),
                            ..io@ }));
                    }
                },
            }
            i = i + 1;
        }
        proof {
            reveal(session_steps);
            assert(ls.subrange(ls.len() as int, ls.len() as int) =~= Seq::<LineV>::empty());
        }
        SessionOutcome::Done
    }
}

} // verus!
