//! From source text to effect: scanning, parsing and executing in one go.

use vstd::prelude::*;
use crate::ast::{statement_views, Statement, StatementView};
use crate::interpreter::{exec_stmt, Executed, Interpreter, State};
use crate::parser::{parse, parse_program, ParseError, ParseErrorView, Statements};
use crate::scanner::{scan, scan_spec, ScanError, ScanErrorView};
use crate::value::{RuntimeError, RuntimeErrorView};

verus! {

/// What goes wrong between a source text and its effect.
#[derive(Debug, PartialEq)]
pub enum CoreError {
    Scan(ScanError),
    Parse(ParseError),
    Runtime(RuntimeError),
}

/// An error with its texts as sequences of characters.
pub enum CoreErrorView {
    Scan(ScanErrorView),
    Parse(ParseErrorView),
    Runtime(RuntimeErrorView),
}

impl View for CoreError {
    type V = CoreErrorView;

    open spec fn view(&self) -> CoreErrorView {
        match self {
            CoreError::Scan(e) => CoreErrorView::Scan(e@),
            CoreError::Parse(e) => CoreErrorView::Parse(e@),
            CoreError::Runtime(e) => CoreErrorView::Runtime(e@),
        }
    }
}

/// The statements that the source text `s` spells, or the first error met.
pub open spec fn program_of(s: Seq<char>) -> Result<Seq<StatementView>, CoreErrorView> {
    match scan_spec(s) {
        Err(e) => Err(CoreErrorView::Scan(e)),
        Ok(tokens) => match parse_program(tokens, 0) {
            Err(e) => Err(CoreErrorView::Parse(e)),
            Ok(stmts) => Ok(stmts),
        },
    }
}

/// Executes the statements `stmts` from the `i`-th on, in order, up to the
/// first error.
pub open spec fn exec_all(stmts: Seq<StatementView>, i: nat, st: State, limit: nat) -> Executed
    decreases stmts.len() - i,
{
    if i >= stmts.len() {
        (st, Ok(()))
    } else {
        let (st1, r) = exec_stmt(stmts[i as int], st, limit);
        match r {
            Err(e) => (st1, Err(e)),
            Ok(_) => exec_all(stmts, i + 1, st1, limit),
        }
    }
}

/// What running the source text `s` in the state `st` leaves: the state,
/// and the first error if any. A text that does not scan or parse changes
/// nothing.
pub open spec fn run_spec(s: Seq<char>, st: State, limit: nat) -> (State, Result<
    (),
    CoreErrorView,
>) {
    match program_of(s) {
        Err(e) => (st, Err(e)),
        Ok(stmts) => {
            let (st1, r) = exec_all(stmts, 0, st, limit);
            match r {
                Ok(_) => (st1, Ok(())),
                Err(e) => (st1, Err(CoreErrorView::Runtime(e))),
            }
        },
    }
}

/// Scans and parses `source`.
pub fn scan_and_parse(source: String) -> (r: Result<Statements, CoreError>)
    ensures
        match r {
            Ok(stmts) => program_of(source@) == Ok::<Seq<StatementView>, CoreErrorView>(stmts@),
            Err(e) => program_of(source@) == Err::<Seq<StatementView>, CoreErrorView>(e@),
        },
{
    let tokens = match scan(source) {
        Ok(tokens) => tokens,
        Err(e) => {
            return Err(CoreError::Scan(e));
        },
    };
    match parse(tokens) {
        Ok(stmts) => Ok(stmts),
        Err(e) => Err(CoreError::Parse(e)),
    }
}

/// Executes `statements` in order, up to the first error.
pub fn execute(statements: Vec<Statement>, interpreter: &mut Interpreter) -> (r: Result<
    (),
    RuntimeError,
>)
    requires
        old(interpreter).wf(),
    ensures
        final(interpreter).wf(),
        final(interpreter).limit() == old(interpreter).limit(),
        final(interpreter).env().len() == old(interpreter).env().len(),
        final(interpreter).state() == exec_all(
            statement_views(statements@),
            0,
            old(interpreter).state(),
            old(interpreter).limit(),
        ).0,
        match r {
            Ok(_) => exec_all(
                statement_views(statements@),
                0,
                old(interpreter).state(),
                old(interpreter).limit(),
            ).1 is Ok,
            Err(e) => exec_all(
                statement_views(statements@),
                0,
                old(interpreter).state(),
                old(interpreter).limit(),
            ).1 == Err::<(), RuntimeErrorView>(e@),
        },
{
    let ghost views = statement_views(statements@);
    let ghost limit = interpreter.limit();
    let ghost target = exec_all(views, 0, interpreter.state(), limit);
    let mut rest = statements;
    let mut i: usize = 0;
    let n = rest.len();
    assert(views.subrange(0, n as int) =~= views);
    while rest.len() > 0
        invariant
            interpreter.wf(),
            interpreter.limit() == limit,
            limit == old(interpreter).limit(),
            interpreter.env().len() == old(interpreter).env().len(),
            i + rest.len() == n,
            n == views.len(),
            views == statement_views(statements@),
            statement_views(rest@) == views.subrange(i as int, n as int),
            target == exec_all(views, 0, old(interpreter).state(), limit),
            target == exec_all(views, i as nat, interpreter.state(), limit),
        decreases rest.len(),
    {
        let ghost before = rest@;
        let stmt = rest.remove(0);
        proof {
            assert(stmt@ == statement_views(before)[0]);
            assert(stmt@ == views[i as int]);
            assert forall|k: int| 0 <= k < rest@.len() implies statement_views(rest@)[k]
                == views.subrange(i + 1, n as int)[k] by {
                assert(rest@[k] == before[k + 1]);
                assert(statement_views(before)[k + 1] == views[i + k + 1]);
            }
            assert(statement_views(rest@) =~= views.subrange(i + 1, n as int));
        }
        match interpreter.evaluate(stmt) {
            Ok(_) => {},
            Err(e) => {
                return Err(e);
            },
        }
        i = i + 1;
    }
    Ok(())
}

/// Runs `script`: scans it, parses it and executes its statements in order,
/// up to the first error.
pub fn run(script: String, interpreter: &mut Interpreter) -> (r: Result<(), CoreError>)
    requires
        old(interpreter).wf(),
    ensures
        final(interpreter).wf(),
        final(interpreter).limit() == old(interpreter).limit(),
        final(interpreter).env().len() == old(interpreter).env().len(),
        final(interpreter).state() == run_spec(
            script@,
            old(interpreter).state(),
            old(interpreter).limit(),
        ).0,
        match r {
            Ok(_) => run_spec(script@, old(interpreter).state(), old(interpreter).limit()).1
                is Ok,
            Err(e) => run_spec(script@, old(interpreter).state(), old(interpreter).limit()).1
                == Err::<(), CoreErrorView>(e@),
        },
{
    let stmts = scan_and_parse(script)?;
    match execute(stmts.into_vec(), interpreter) {
        Ok(_) => Ok(()),
        Err(e) => Err(CoreError::Runtime(e)),
    }
}

} // verus!
