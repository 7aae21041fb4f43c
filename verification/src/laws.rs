//! The laws of the interpreter: properties that hold of every input, each
//! stated over the specification functions the executable code is proved
//! against.

use vstd::prelude::*;

use crate::ast::ArithmeticOperator;
use crate::ast::ExprV;
use crate::ast::StmtV;
use crate::errors::RunErrV;
use crate::interpreter::OutcomeV;
use crate::interpreter::StateV;
use crate::interpreter::ValV;
use crate::interpreter::compare;
use crate::interpreter::empty_program;
use crate::interpreter::eval_binary;
use crate::interpreter::eval_expr;
use crate::interpreter::step_stmt;
use crate::io::EventV;
use crate::io::IoV;
use crate::program::render_listing;
use crate::program::stored_lines;

verus! {

/// Addition, subtraction and multiplication of two numbers follow ordinary
/// integer arithmetic whenever the true result fits the numeric range, and
/// fault as invalid operations when it does not.
pub proof fn lemma_arithmetic_exact(cur: nat, a: i64, b: i64)
    ensures
        eval_binary(cur, ArithmeticOperator::Add, ValV::Number(a), ValV::Number(b)) == (if i64::MIN
            <= a + b <= i64::MAX {
            Result::<ValV, RunErrV>::Ok(ValV::Number((a + b) as i64))
        } else {
            Result::<ValV, RunErrV>::Err(RunErrV::InvalidOperation(cur))
        }),
        eval_binary(cur, ArithmeticOperator::Subtract, ValV::Number(a), ValV::Number(b)) == (
        if i64::MIN <= a - b <= i64::MAX {
            Result::<ValV, RunErrV>::Ok(ValV::Number((a - b) as i64))
        } else {
            Result::<ValV, RunErrV>::Err(RunErrV::InvalidOperation(cur))
        }),
        eval_binary(cur, ArithmeticOperator::Multiply, ValV::Number(a), ValV::Number(b)) == (
        if i64::MIN <= a * b <= i64::MAX {
            Result::<ValV, RunErrV>::Ok(ValV::Number((a * b) as i64))
        } else {
            Result::<ValV, RunErrV>::Err(RunErrV::InvalidOperation(cur))
        }),
{
}

/// Division of two numbers is the quotient truncated toward zero, the
/// native behavior of the numeric representation, written below over the
/// magnitudes; dividing by zero, and the one quotient that leaves the
/// numeric range, are invalid-operation faults, never a crash and never a
/// wrapped value.
pub proof fn lemma_division(cur: nat, a: i64, b: i64)
    ensures
        b == 0 ==> eval_binary(cur, ArithmeticOperator::Divide, ValV::Number(a), ValV::Number(b))
            == Result::<ValV, RunErrV>::Err(RunErrV::InvalidOperation(cur)),
        b > 0 && a >= 0 ==> eval_binary(
            cur,
            ArithmeticOperator::Divide,
            ValV::Number(a),
            ValV::Number(b),
        ) == Result::<ValV, RunErrV>::Ok(ValV::Number((a as int / b as int) as i64)),
        b > 0 && a < 0 ==> eval_binary(
            cur,
            ArithmeticOperator::Divide,
            ValV::Number(a),
            ValV::Number(b),
        ) == Result::<ValV, RunErrV>::Ok(
            ValV::Number((((a as int * -1) / b as int) * -1) as i64),
        ),
        b < 0 && a > 0 ==> eval_binary(
            cur,
            ArithmeticOperator::Divide,
            ValV::Number(a),
            ValV::Number(b),
        ) == Result::<ValV, RunErrV>::Ok(
            ValV::Number(((a as int / (b as int * -1)) * -1) as i64),
        ),
        b < 0 && a <= 0 && !(a == i64::MIN && b == -1) ==> eval_binary(
            cur,
            ArithmeticOperator::Divide,
            ValV::Number(a),
            ValV::Number(b),
        ) == Result::<ValV, RunErrV>::Ok(
            ValV::Number(((a as int * -1) / (b as int * -1)) as i64),
        ),
        a == i64::MIN && b == -1 ==> eval_binary(
            cur,
            ArithmeticOperator::Divide,
            ValV::Number(a),
            ValV::Number(b),
        ) == Result::<ValV, RunErrV>::Err(RunErrV::InvalidOperation(cur)),
{
    let x = a as int;
    let d = b as int;
    if b > 0 && a >= 0 {
        vstd::arithmetic::div_mod::lemma_div_pos_is_pos(x, d);
        vstd::arithmetic::div_mod::lemma_div_nonincreasing(x, d);
    }
    if b > 0 && a < 0 {
        vstd::arithmetic::div_mod::lemma_div_pos_is_pos(x * -1, d);
        vstd::arithmetic::div_mod::lemma_div_nonincreasing(x * -1, d);
    }
    if b < 0 && a > 0 {
        vstd::arithmetic::div_mod::lemma_div_pos_is_pos(x, d * -1);
        vstd::arithmetic::div_mod::lemma_div_nonincreasing(x, d * -1);
    }
    if b < 0 && a <= 0 {
        let m = x * -1;
        let n = d * -1;
        vstd::arithmetic::div_mod::lemma_div_pos_is_pos(m, n);
        vstd::arithmetic::div_mod::lemma_div_basics(m);
        if n > 1 {
            vstd::arithmetic::div_mod::lemma_div_is_ordered_by_denominator(m, 2, n);
            vstd::arithmetic::div_mod::lemma_div_is_ordered(m, 0x8000000000000000, 2);
            assert(0x8000000000000000int / 2int == 0x4000000000000000int);
        }
    }
}

/// Concatenating two pieces of text with `+` joins them left-to-right and
/// is the only operator two texts support: any other operator between two
/// texts, and any operator between a text and a number, is an
/// invalid-operation fault.
pub proof fn lemma_text_concatenation(cur: nat, a: Seq<char>, b: Seq<char>, n: i64)
    ensures
        eval_binary(cur, ArithmeticOperator::Add, ValV::Text(a), ValV::Text(b)) == Result::<
            ValV,
            RunErrV,
        >::Ok(ValV::Text(a + b)),
        forall|op: ArithmeticOperator|
            op != ArithmeticOperator::Add ==> #[trigger] eval_binary(
                cur,
                op,
                ValV::Text(a),
                ValV::Text(b),
            ) == Result::<ValV, RunErrV>::Err(RunErrV::InvalidOperation(cur)),
        forall|op: ArithmeticOperator| #[trigger]
            eval_binary(cur, op, ValV::Text(a), ValV::Number(n)) == Result::<ValV, RunErrV>::Err(
                RunErrV::InvalidOperation(cur),
            ),
        forall|op: ArithmeticOperator| #[trigger]
            eval_binary(cur, op, ValV::Number(n), ValV::Text(a)) == Result::<ValV, RunErrV>::Err(
                RunErrV::InvalidOperation(cur),
            ),
{
}

/// Text concatenation is associative: grouping does not change the joined
/// text.
pub proof fn lemma_concat_associative(a: Seq<char>, b: Seq<char>, c: Seq<char>)
    ensures
        (a + b) + c == a + (b + c),
{
    assert((a + b) + c =~= a + (b + c));
}

/// LIST renders the same text whichever order two differently numbered
/// lines were stored in: the listing depends on the stored image alone,
/// and the image does not remember entry order.
pub proof fn lemma_listing_ignores_entry_order(
    p: Seq<Option<crate::ast::LineV>>,
    n1: int,
    l1: crate::ast::LineV,
    n2: int,
    l2: crate::ast::LineV,
)
    requires
        0 <= n1 < p.len(),
        0 <= n2 < p.len(),
        n1 != n2,
    ensures
        render_listing(
            stored_lines(p.update(n1, Option::Some(l1)).update(n2, Option::Some(l2))),
        ) == render_listing(
            stored_lines(p.update(n2, Option::Some(l2)).update(n1, Option::Some(l1))),
        ),
{
    crate::program::lemma_store_order_irrelevant(p, n1, l1, n2, l2);
}

/// NEW clears everything: whatever the machine held, after NEW there are no
/// bindings (every variable reads as undefined), no stored lines (LIST
/// shows empty output), an empty call stack, and the cursor at zero.
pub proof fn lemma_new_clears(s: StateV, io: IoV, name: Seq<char>)
    ensures
        step_stmt(s, io, StmtV::New).0 == (StateV {
            vars: Map::<Seq<char>, ValV>::empty(),
            program: empty_program(),
            stack: Seq::<int>::empty(),
            cursor: 0,
        }),
        step_stmt(s, io, StmtV::New).1 == io,
        step_stmt(s, io, StmtV::New).2 == Result::<OutcomeV, RunErrV>::Ok(
            OutcomeV::Val(ValV::Null),
        ),
        eval_expr(step_stmt(s, io, StmtV::New).0.vars, 0, ExprV::Ident(name)) == Result::<
            ValV,
            RunErrV,
        >::Err(RunErrV::UndefinedVariable(name, 0)),
        render_listing(stored_lines(step_stmt(s, io, StmtV::New).0.program)) == Seq::<
            char,
        >::empty(),
{
    lemma_stored_lines_empty(empty_program());
}

/// A program image with nothing stored lists nothing.
proof fn lemma_stored_lines_empty(p: Seq<Option<crate::ast::LineV>>)
    requires
        forall|i: int| 0 <= i < p.len() ==> #[trigger] p[i] is None,
    ensures
        stored_lines(p) == Seq::<crate::ast::LineV>::empty(),
        render_listing(stored_lines(p)) == Seq::<char>::empty(),
    decreases p.len(),
{
    if p.len() > 0 {
        lemma_stored_lines_empty(p.drop_last());
    }
}

/// An IF whose condition compares two numbers and comes out false does
/// nothing at all: the machine state and the output are untouched, no side
/// effect of the nested statement happens, and the result is the no-value.
pub proof fn lemma_if_false_no_effect(
    s: StateV,
    io: IoV,
    op: crate::ast::RelationOperator,
    l: ExprV,
    r: ExprV,
    then_branch: StmtV,
    a: i64,
    b: i64,
)
    requires
        eval_expr(s.vars, s.cursor as nat, l) == Result::<ValV, RunErrV>::Ok(ValV::Number(a)),
        eval_expr(s.vars, s.cursor as nat, r) == Result::<ValV, RunErrV>::Ok(ValV::Number(b)),
        !compare(op, a, b),
    ensures
        step_stmt(s, io, StmtV::If(op, l, r, Box::new(then_branch))) == (
            s,
            io,
            Result::<OutcomeV, RunErrV>::Ok(OutcomeV::Val(ValV::Null)),
        ),
{
}

/// GOSUB and RETURN are inverse moves of the cursor: GOSUB remembers the
/// cursor (already advanced past the GOSUB line) on the call-return stack
/// before jumping, and RETURN restores exactly that cursor and leaves the
/// stack as it was before the GOSUB, so a subroutine always comes back to
/// the line after its call and is never re-entered uninvoked.
pub proof fn lemma_gosub_return_round_trip(s: StateV, io: IoV, e: ExprV, n: i64)
    requires
        eval_expr(s.vars, s.cursor as nat, e) == Result::<ValV, RunErrV>::Ok(ValV::Number(n)),
        0 <= n < crate::program::MAX_LINES,
    ensures
        ({
            let after_gosub = step_stmt(s, io, StmtV::Gosub(e)).0;
            &&& after_gosub.cursor == n as int
            &&& after_gosub.stack == s.stack.push(s.cursor)
            &&& after_gosub.vars == s.vars
            &&& after_gosub.program == s.program
            &&& step_stmt(s, io, StmtV::Gosub(e)).2 == Result::<OutcomeV, RunErrV>::Ok(
                OutcomeV::Val(ValV::Null),
            )
            &&& step_stmt(after_gosub, io, StmtV::Return).0.cursor == s.cursor
            &&& step_stmt(after_gosub, io, StmtV::Return).0.stack == s.stack
        }),
{
    let after_gosub = step_stmt(s, io, StmtV::Gosub(e)).0;
    assert(after_gosub.stack.drop_last() =~= s.stack);
}

/// SAVE hands the host exactly the text LIST shows: the serialized program
/// a later LOAD re-parses is the listing of the stored lines, so the two
/// surfaces can never disagree about the program text.
pub proof fn lemma_save_matches_list(s: StateV, io: IoV)
    ensures
        step_stmt(s, io, StmtV::Save).1.output == io.output.push(
            EventV::Save(render_listing(stored_lines(s.program))),
        ),
        step_stmt(s, io, StmtV::List).2 == Result::<OutcomeV, RunErrV>::Ok(
            OutcomeV::Val(ValV::Text(render_listing(stored_lines(s.program)))),
        ),
        step_stmt(s, io, StmtV::Save).0 == s,
        step_stmt(s, io, StmtV::List).0 == s,
        step_stmt(s, io, StmtV::List).1 == io,
{
}

} // verus!
