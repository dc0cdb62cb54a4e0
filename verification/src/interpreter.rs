use crate::ast::{names_of, stmts_of, Ast, Name};
use crate::bindings::map_new;
pub use crate::env::{Env, Func, FuncTable};
pub use crate::error::EvalError;
use crate::semantics::{
    after_reading, frame, lemma_bind_after_touch, lemma_reading_keeps_values, run, run_from,
    run_loop, run_stmt, Outcome, State,
};
use vstd::prelude::*;

verus! {

/// Whether a result and the state that was left say what an outcome says: the
/// same state, and either the same number of steps left or the same fault.
pub open spec fn reports(result: Result<u64, EvalError>, state: State, outcome: Outcome) -> bool {
    match outcome {
        Outcome::Done { state: end, left } => result is Ok && result->Ok_0 == left && state == end,
        Outcome::Failed { state: end, fault } => result is Err && result->Err_0@ == fault && state
            == end,
    }
}

/// Executes one statement on `env`, with a budget of `steps`: one step for
/// the statement and, where it is a loop or a call, the steps of what runs in
/// it. Returns the steps that are left; or the error, with `env` as the
/// statement left it when it failed.
pub fn interpret<'a>(env: &mut Env<'a>, expr: &'a Ast, steps: u64) -> (result: Result<
    u64,
    EvalError,
>)
    requires
        old(env)@.has_room(steps as nat),
    ensures
        reports(result, final(env)@, run_stmt(old(env)@, expr@, steps as nat)),
        result is Ok ==> result->Ok_0 < steps && final(env)@.has_room(result->Ok_0 as nat),
    decreases steps, 0nat,
{
    if steps == 0 {
        return Err(EvalError::OutOfSteps);
    }
    let left: u64 = steps - 1;
    match expr {
        Ast::Incr { var_name } => {
            let value = env.get_or_create(var_name.as_str());
            env.set(var_name.as_str(), value + 1);
            proof {
                lemma_bind_after_touch(old(env)@, var_name@, value + 1);
            }
            Ok(left)
        },
        Ast::Decr { var_name } => {
            let value = env.get_or_create(var_name.as_str());
            let lowered: i64 = if value <= 0 {
                0
            } else {
                value - 1
            };
            env.set(var_name.as_str(), lowered);
            proof {
                lemma_bind_after_touch(old(env)@, var_name@, lowered as int);
            }
            Ok(left)
        },
        Ast::Return { name } => {
            env.set_result(name.as_str());
            Ok(left)
        },
        Ast::Def { name, parameters, body } => {
            env.set_function(name.as_str(), Func::new(body, parameters));
            Ok(left)
        },
        Ast::While { cond_var, body } => interpret_loop(env, cond_var.as_str(), body, left),
        Ast::Assign { var_name, fun_name, args } => {
            let func: Func<'a> = match env.get_function(fun_name.as_str()) {
                Ok(func) => *func,
                Err(error) => {
                    return Err(error);
                },
            };
            let parameters = func.parameters();
            if args.len() != parameters.len() {
                return Err(
                    EvalError::ArityMismatch {
                        name: fun_name.clone(),
                        expected: parameters.len(),
                        found: args.len(),
                    },
                );
            }
            let ghost caller = old(env)@;
            let ghost model = caller.functions[fun_name@];
            let mut callee = Env::from_parent(map_new(), env.function_table());
            assert(callee@.values =~= Map::<Name, int>::empty());
            assert(callee@.order =~= Seq::<Name>::empty());
            let mut i: usize = 0;
            while i < parameters.len()
                invariant
                    i <= parameters.len(),
                    args.len() == parameters.len(),
                    left < i64::MAX,
                    caller.has_room((left + 1) as nat),
                    names_of(parameters@) == model.parameters,
                    env@ == after_reading(caller, names_of(args@), i as nat),
                    callee@ == frame(caller, model.parameters, names_of(args@), i as nat),
                    callee@.has_room(left as nat),
                decreases parameters.len() - i,
            {
                proof {
                    lemma_reading_keeps_values(caller, names_of(args@), i as nat, args@[i as int]@);
                }
                let value = env.get_or_create(args[i].as_str());
                callee.set(parameters[i].as_str(), value);
                i += 1;
            }
            proof {
                assert forall|w: Name| #[trigger]
                    env@.values.contains_key(w) implies i64::MIN <= env@.values[w]
                    && env@.values[w] + left <= i64::MAX by {
                    lemma_reading_keeps_values(caller, names_of(args@), i as nat, w);
                }
            }
            match interpret_program(&mut callee, func.body(), left) {
                Err(error) => Err(error),
                Ok(rest) => match callee.get_result() {
                    None => Err(EvalError::MissingReturn { name: fun_name.clone() }),
                    Some(value) => {
                        env.set(var_name.as_str(), value);
                        Ok(rest)
                    },
                },
            }
        },
    }
}

/// Executes a loop on `env`: as long as reading `cond_var` gives a value
/// other than 0, runs `body` once more.
fn interpret_loop<'a>(env: &mut Env<'a>, cond_var: &'a str, body: &'a Vec<Ast>, steps: u64) -> (result:
    Result<u64, EvalError>)
    requires
        old(env)@.has_room(steps as nat),
    ensures
        reports(result, final(env)@, run_loop(old(env)@, cond_var@, stmts_of(body@), steps as nat)),
        result is Ok ==> result->Ok_0 <= steps && final(env)@.has_room(result->Ok_0 as nat),
    decreases steps, 0nat,
{
    let ghost goal = run_loop(old(env)@, cond_var@, stmts_of(body@), steps as nat);
    let mut left: u64 = steps;
    loop
        invariant
            left <= steps,
            env@.has_room(left as nat),
            goal == run_loop(old(env)@, cond_var@, stmts_of(body@), steps as nat),
            run_loop(env@, cond_var@, stmts_of(body@), left as nat) == goal,
        decreases left,
    {
        let value = env.get_or_create(cond_var);
        if value == 0 {
            return Ok(left);
        }
        if left == 0 {
            return Err(EvalError::OutOfSteps);
        }
        match interpret_program(env, body, left - 1) {
            Err(error) => {
                return Err(error);
            },
            Ok(rest) => {
                left = rest;
            },
        }
    }
}

/// Executes the statements of `program` on `env`, in order, with a budget of
/// `steps`: one step for each statement that runs and one for each entry into
/// the body of a loop. Returns the steps that are left, or the error of the
/// first statement that fails, with `env` as that statement left it.
pub fn interpret_program<'a>(env: &mut Env<'a>, program: &'a Vec<Ast>, steps: u64) -> (result:
    Result<u64, EvalError>)
    requires
        old(env)@.has_room(steps as nat),
    ensures
        reports(result, final(env)@, run(old(env)@, stmts_of(program@), steps as nat)),
        result is Ok ==> result->Ok_0 <= steps && final(env)@.has_room(result->Ok_0 as nat),
    decreases steps, 1nat,
{
    let ghost goal = run(old(env)@, stmts_of(program@), steps as nat);
    let mut left: u64 = steps;
    let mut i: usize = 0;
    while i < program.len()
        invariant
            i <= program.len(),
            left <= steps,
            env@.has_room(left as nat),
            goal == run(old(env)@, stmts_of(program@), steps as nat),
            run_from(env@, stmts_of(program@), i as nat, left as nat) == goal,
        decreases program.len() - i,
    {
        assert(stmts_of(program@)[i as int] == program@[i as int]@);
        match interpret(env, &program[i], left) {
            Err(error) => {
                return Err(error);
            },
            Ok(rest) => {
                left = rest;
            },
        }
        i += 1;
    }
    Ok(left)
}

/// Executes `program` as `interpret_program` does, where `env` has room for
/// `steps` steps; where it has not, executes nothing and returns `None`.
pub fn try_interpret_program<'a>(env: &mut Env<'a>, program: &'a Vec<Ast>, steps: u64) -> (result:
    Option<Result<u64, EvalError>>)
    ensures
        match result {
            Some(result) => old(env)@.has_room(steps as nat) && reports(
                result,
                final(env)@,
                run(old(env)@, stmts_of(program@), steps as nat),
            ),
            None => !old(env)@.has_room(steps as nat) && final(env)@ == old(env)@,
        },
{
    if env.has_room(steps) {
        Some(interpret_program(env, program, steps))
    } else {
        None
    }
}

} // verus!
