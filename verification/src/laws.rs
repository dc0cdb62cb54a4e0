use crate::ast::{Name, Stmt};
use crate::semantics::{
    after_reading, at_most, frame, lemma_frame_shape, lemma_reading_keeps_values, run, run_from,
    run_loop, run_stmt, Fault, Outcome, State,
};
use vstd::prelude::*;

verus! {

/// Reading a variable that was never bound gives 0, and binds it to 0.
pub proof fn law_unbound_reads_zero(st: State, v: Name)
    requires
        !st.values.contains_key(v),
    ensures
        st.value_of(v) == 0,
        st.touch(v).values.contains_key(v),
        st.touch(v).values[v] == 0,
{
}

/// A decrement of a variable at 0 leaves it at 0; at a value above 0 it takes
/// one off. No other variable changes.
pub proof fn law_decrement_saturates(st: State, v: Name, steps: nat)
    requires
        st.value_of(v) >= 0,
        steps > 0,
    ensures
        run_stmt(st, Stmt::Decr { var_name: v }, steps) matches Outcome::Done { state, left }
            && left == steps - 1 && state.value_of(v) == (if st.value_of(v) == 0 {
            0
        } else {
            st.value_of(v) - 1
        }) && forall|w: Name| w != v ==> state.value_of(w) == st.value_of(w),
{
}

/// An increment and then a decrement of one variable, from a value of 0 or
/// more, leave the state as reading the variable leaves it: every variable
/// has the value that it had.
pub proof fn law_increment_then_decrement(st: State, v: Name, steps: nat)
    requires
        st.value_of(v) >= 0,
        steps >= 2,
    ensures
        run(st, seq![Stmt::Incr { var_name: v }, Stmt::Decr { var_name: v }], steps) == (
        Outcome::Done { state: st.touch(v), left: (steps - 2) as nat }),
        forall|w: Name| st.touch(v).value_of(w) == st.value_of(w),
{
    let program = seq![Stmt::Incr { var_name: v }, Stmt::Decr { var_name: v }];
    let x = st.value_of(v);
    let raised = st.bind(v, x + 1);
    let lowered = raised.bind(v, x);
    assert(run_stmt(st, program[0], steps) == Outcome::Done {
        state: raised,
        left: (steps - 1) as nat,
    });
    assert(run_stmt(raised, program[1], (steps - 1) as nat) == Outcome::Done {
        state: lowered,
        left: (steps - 2) as nat,
    });
    assert(lowered.values =~= st.touch(v).values);
    assert(lowered == st.touch(v));
    assert(run_from(lowered, program, 2, (steps - 2) as nat) == Outcome::Done {
        state: lowered,
        left: (steps - 2) as nat,
    });
    assert(run_from(raised, program, 1, (steps - 1) as nat) == Outcome::Done {
        state: lowered,
        left: (steps - 2) as nat,
    });
}

/// A call of a name that is not defined fails with `FunctionNotFound`, and
/// the state is as the call found it.
pub proof fn law_undefined_function_fails(
    st: State,
    var_name: Name,
    fun_name: Name,
    args: Seq<Name>,
    steps: nat,
)
    requires
        !st.functions.contains_key(fun_name),
        steps > 0,
    ensures
        run_stmt(st, Stmt::Assign { var_name, fun_name, args }, steps) == (Outcome::Failed {
            state: st,
            fault: Fault::FunctionNotFound { name: fun_name },
        }),
{
}

/// A call with another number of arguments than the function has parameters
/// fails with `ArityMismatch`, and the state is as the call found it.
pub proof fn law_wrong_arity_fails(
    st: State,
    var_name: Name,
    fun_name: Name,
    args: Seq<Name>,
    steps: nat,
)
    requires
        st.functions.contains_key(fun_name),
        args.len() != st.functions[fun_name].parameters.len(),
        steps > 0,
    ensures
        run_stmt(st, Stmt::Assign { var_name, fun_name, args }, steps) == (Outcome::Failed {
            state: st,
            fault: Fault::ArityMismatch {
                name: fun_name,
                expected: st.functions[fun_name].parameters.len(),
                found: args.len(),
            },
        }),
{
}

/// A `Return` designates its variable and changes nothing else; the run goes
/// on with the statement after it, so a later `Return` designates anew.
pub proof fn law_return_goes_on(st: State, stmts: Seq<Stmt>, at: nat, name: Name, steps: nat)
    requires
        at < stmts.len(),
        stmts[at as int] == (Stmt::Return { name }),
        steps > 0,
    ensures
        run_stmt(st, stmts[at as int], steps) == (Outcome::Done {
            state: st.designate(name),
            left: (steps - 1) as nat,
        }),
        run_from(st, stmts, at, steps) == run_from(
            st.designate(name),
            stmts,
            at + 1,
            (steps - 1) as nat,
        ),
        st.designate(name).result_name == Some(name),
        st.designate(name).values == st.values,
        st.designate(name).order == st.order,
        st.designate(name).functions == st.functions,
{
}

/// Whether none of the statements designates a result in the frame that runs
/// them: no `Return` among them, nor in the body of a loop among them. The
/// body of a `Def` does not count: it runs in a frame of its own.
pub open spec fn return_free(stmts: Seq<Stmt>) -> bool
    decreases stmts,
{
    forall|i: int|
        0 <= i < stmts.len() ==> match #[trigger] stmts[i] {
            Stmt::Return { name } => false,
            Stmt::While { cond_var, body } => return_free(body),
            _ => true,
        }
}

/// A statement that runs to its end leaves fewer steps than it was given.
pub proof fn law_statement_spends_steps(st: State, s: Stmt, steps: nat)
    ensures
        run_stmt(st, s, steps) matches Outcome::Done { left, .. } ==> left < steps,
    decreases steps, 0nat, 0nat,
{
    if steps > 0 {
        let left = (steps - 1) as nat;
        match s {
            Stmt::While { cond_var, body } => {
                law_loop_spends_steps(st, cond_var, body, left);
            },
            Stmt::Assign { var_name, fun_name, args } => {
                if st.functions.contains_key(fun_name) {
                    let f = st.functions[fun_name];
                    if args.len() == f.parameters.len() {
                        law_run_spends_steps(
                            frame(st, f.parameters, args, args.len()),
                            f.body,
                            0,
                            left,
                        );
                    }
                }
            },
            _ => {},
        }
    }
}

/// A loop that runs to its end leaves no more steps than it was given.
pub proof fn law_loop_spends_steps(st: State, cond_var: Name, body: Seq<Stmt>, steps: nat)
    ensures
        run_loop(st, cond_var, body, steps) matches Outcome::Done { left, .. } ==> left <= steps,
    decreases steps, 0nat, 0nat,
{
    let read = st.touch(cond_var);
    if read.value_of(cond_var) != 0 && steps > 0 {
        law_run_spends_steps(read, body, 0, (steps - 1) as nat);
        match run_from(read, body, 0, (steps - 1) as nat) {
            Outcome::Done { state, left } => {
                law_loop_spends_steps(state, cond_var, body, at_most(left, (steps - 1) as nat));
            },
            _ => {},
        }
    }
}

/// Statements that run to their end leave no more steps than they were
/// given.
pub proof fn law_run_spends_steps(st: State, stmts: Seq<Stmt>, at: nat, steps: nat)
    ensures
        run_from(st, stmts, at, steps) matches Outcome::Done { left, .. } ==> left <= steps,
    decreases steps, 1nat, stmts.len() - at,
{
    if at < stmts.len() {
        law_statement_spends_steps(st, stmts[at as int], steps);
        match run_stmt(st, stmts[at as int], steps) {
            Outcome::Done { state, left } => {
                law_run_spends_steps(state, stmts, at + 1, at_most(left, steps));
            },
            _ => {},
        }
    }
}

/// What a larger budget changes in an outcome: a run that ended leaves that
/// many more steps, and a run that failed for another reason than the budget
/// fails in the same way.
pub open spec fn with_more_steps(outcome: Outcome, extra: nat) -> Outcome {
    match outcome {
        Outcome::Done { state, left } => Outcome::Done { state, left: left + extra },
        failed => failed,
    }
}

/// Whether a run ended for want of steps.
pub open spec fn ran_out(outcome: Outcome) -> bool {
    outcome matches Outcome::Failed { fault, .. } && fault == Fault::OutOfSteps
}

/// The budget decides nothing but whether a statement can run to its end:
/// with more steps, what ended or failed without running out does the same.
pub proof fn law_statement_budget(st: State, s: Stmt, steps: nat, extra: nat)
    requires
        !ran_out(run_stmt(st, s, steps)),
    ensures
        run_stmt(st, s, steps + extra) == with_more_steps(run_stmt(st, s, steps), extra),
    decreases steps, 0nat, 0nat,
{
    let left = (steps - 1) as nat;
    match s {
        Stmt::While { cond_var, body } => {
            law_loop_budget(st, cond_var, body, left, extra);
        },
        Stmt::Assign { var_name, fun_name, args } => {
            if st.functions.contains_key(fun_name) {
                let f = st.functions[fun_name];
                if args.len() == f.parameters.len() {
                    law_run_budget(frame(st, f.parameters, args, args.len()), f.body, 0, left, extra);
                }
            }
        },
        _ => {},
    }
}

/// The budget decides nothing but whether a loop can run to its end.
pub proof fn law_loop_budget(st: State, cond_var: Name, body: Seq<Stmt>, steps: nat, extra: nat)
    requires
        !ran_out(run_loop(st, cond_var, body, steps)),
    ensures
        run_loop(st, cond_var, body, steps + extra) == with_more_steps(
            run_loop(st, cond_var, body, steps),
            extra,
        ),
    decreases steps, 0nat, 0nat,
{
    let read = st.touch(cond_var);
    if read.value_of(cond_var) != 0 {
        let inner = (steps - 1) as nat;
        law_run_budget(read, body, 0, inner, extra);
        law_run_spends_steps(read, body, 0, inner);
        match run_from(read, body, 0, inner) {
            Outcome::Done { state, left } => {
                law_loop_budget(state, cond_var, body, left, extra);
                assert(at_most(left + extra, inner + extra) == left + extra);
            },
            _ => {},
        }
    }
}

/// The budget decides nothing but whether statements can run to their end.
pub proof fn law_run_budget(st: State, stmts: Seq<Stmt>, at: nat, steps: nat, extra: nat)
    requires
        !ran_out(run_from(st, stmts, at, steps)),
    ensures
        run_from(st, stmts, at, steps + extra) == with_more_steps(
            run_from(st, stmts, at, steps),
            extra,
        ),
    decreases steps, 1nat, stmts.len() - at,
{
    if at < stmts.len() {
        law_statement_budget(st, stmts[at as int], steps, extra);
        law_statement_spends_steps(st, stmts[at as int], steps);
        match run_stmt(st, stmts[at as int], steps) {
            Outcome::Done { state, left } => {
                law_run_budget(state, stmts, at + 1, left, extra);
                assert(at_most(left + extra, steps + extra) == left + extra);
            },
            _ => {},
        }
    }
}

/// The state that an outcome holds.
pub open spec fn state_of(outcome: Outcome) -> State {
    match outcome {
        Outcome::Done { state, .. } => state,
        Outcome::Failed { state, .. } => state,
    }
}

/// A statement other than a `Return`, whose body, if it is a loop, designates
/// no result, leaves the result name as it found it.
pub proof fn law_statement_keeps_result_name(st: State, s: Stmt, steps: nat)
    requires
        match s {
            Stmt::Return { name } => false,
            Stmt::While { cond_var, body } => return_free(body),
            _ => true,
        },
    ensures
        state_of(run_stmt(st, s, steps)).result_name == st.result_name,
    decreases steps, 0nat, 0nat,
{
    if steps > 0 {
        let left = (steps - 1) as nat;
        match s {
            Stmt::While { cond_var, body } => {
                law_loop_keeps_result_name(st, cond_var, body, left);
            },
            Stmt::Assign { var_name, fun_name, args } => {
                if st.functions.contains_key(fun_name) {
                    let f = st.functions[fun_name];
                    if args.len() == f.parameters.len() {
                        lemma_reading_keeps_values(st, args, args.len(), var_name);
                    }
                }
            },
            _ => {},
        }
    }
}

/// A loop whose body designates no result leaves the result name as it found
/// it.
pub proof fn law_loop_keeps_result_name(st: State, cond_var: Name, body: Seq<Stmt>, steps: nat)
    requires
        return_free(body),
    ensures
        state_of(run_loop(st, cond_var, body, steps)).result_name == st.result_name,
    decreases steps, 0nat, 0nat,
{
    let read = st.touch(cond_var);
    if read.value_of(cond_var) != 0 && steps > 0 {
        law_run_keeps_result_name(read, body, 0, (steps - 1) as nat);
        match run_from(read, body, 0, (steps - 1) as nat) {
            Outcome::Done { state, left } => {
                law_loop_keeps_result_name(
                    state,
                    cond_var,
                    body,
                    at_most(left, (steps - 1) as nat),
                );
            },
            _ => {},
        }
    }
}

/// Statements that designate no result leave the result name as they found
/// it.
pub proof fn law_run_keeps_result_name(st: State, stmts: Seq<Stmt>, at: nat, steps: nat)
    requires
        return_free(stmts),
    ensures
        state_of(run_from(st, stmts, at, steps)).result_name == st.result_name,
    decreases steps, 1nat, stmts.len() - at,
{
    if at < stmts.len() {
        let s = stmts[at as int];
        law_statement_keeps_result_name(st, s, steps);
        match run_stmt(st, s, steps) {
            Outcome::Done { state, left } => {
                law_run_keeps_result_name(state, stmts, at + 1, at_most(left, steps));
            },
            _ => {},
        }
    }
}

/// A call of a function whose body designates no result does not end well:
/// where the body runs to its end, the call fails with `MissingReturn`, and
/// the caller's state is as reading the arguments left it.
pub proof fn law_missing_return_fails(
    st: State,
    var_name: Name,
    fun_name: Name,
    args: Seq<Name>,
    steps: nat,
)
    requires
        st.functions.contains_key(fun_name),
        args.len() == st.functions[fun_name].parameters.len(),
        return_free(st.functions[fun_name].body),
        steps > 0,
    ensures
        run_stmt(st, Stmt::Assign { var_name, fun_name, args }, steps) is Failed,
        run_from(
            frame(st, st.functions[fun_name].parameters, args, args.len()),
            st.functions[fun_name].body,
            0,
            (steps - 1) as nat,
        ) is Done ==> run_stmt(st, Stmt::Assign { var_name, fun_name, args }, steps) == (
        Outcome::Failed {
            state: after_reading(st, args, args.len()),
            fault: Fault::MissingReturn { name: fun_name },
        }),
{
    let f = st.functions[fun_name];
    let callee = frame(st, f.parameters, args, args.len());
    lemma_frame_shape(st, f.parameters, args, args.len());
    law_run_keeps_result_name(callee, f.body, 0, (steps - 1) as nat);
}

/// Reading the argument variables of a call takes no room.
pub proof fn lemma_reading_keeps_room(st: State, args: Seq<Name>, n: nat, steps: nat)
    requires
        st.has_room(steps),
    ensures
        after_reading(st, args, n).has_room(steps),
    decreases n,
{
    if n > 0 {
        lemma_reading_keeps_room(st, args, (n - 1) as nat, steps);
    }
}

/// The frame of a call has the room that the caller has.
pub proof fn lemma_frame_has_room(
    st: State,
    parameters: Seq<Name>,
    args: Seq<Name>,
    n: nat,
    steps: nat,
)
    requires
        st.has_room(steps),
    ensures
        frame(st, parameters, args, n).has_room(steps),
    decreases n,
{
    if n > 0 {
        lemma_frame_has_room(st, parameters, args, (n - 1) as nat, steps);
    }
}

/// A step raises a value by one at most: from a state with room for the
/// budget, a statement that runs to its end leads to a state with room for
/// the steps that are left.
pub proof fn law_statement_keeps_room(st: State, s: Stmt, steps: nat)
    requires
        st.has_room(steps),
    ensures
        run_stmt(st, s, steps) matches Outcome::Done { state, left } ==> state.has_room(left),
    decreases steps, 0nat, 0nat,
{
    if steps > 0 {
        let left = (steps - 1) as nat;
        match s {
            Stmt::While { cond_var, body } => {
                law_loop_keeps_room(st, cond_var, body, left);
            },
            Stmt::Assign { var_name, fun_name, args } => {
                if st.functions.contains_key(fun_name) {
                    let f = st.functions[fun_name];
                    if args.len() == f.parameters.len() {
                        let callee = frame(st, f.parameters, args, args.len());
                        lemma_reading_keeps_room(st, args, args.len(), left);
                        lemma_frame_has_room(st, f.parameters, args, args.len(), left);
                        law_run_keeps_room(callee, f.body, 0, left);
                        law_run_spends_steps(callee, f.body, 0, left);
                    }
                }
            },
            _ => {},
        }
    }
}

/// From a state with room for the budget, a loop that runs to its end leads
/// to a state with room for the steps that are left.
pub proof fn law_loop_keeps_room(st: State, cond_var: Name, body: Seq<Stmt>, steps: nat)
    requires
        st.has_room(steps),
    ensures
        run_loop(st, cond_var, body, steps) matches Outcome::Done { state, left }
            ==> state.has_room(left),
    decreases steps, 0nat, 0nat,
{
    let read = st.touch(cond_var);
    if read.value_of(cond_var) != 0 && steps > 0 {
        law_run_keeps_room(read, body, 0, (steps - 1) as nat);
        law_run_spends_steps(read, body, 0, (steps - 1) as nat);
        match run_from(read, body, 0, (steps - 1) as nat) {
            Outcome::Done { state, left } => {
                law_loop_keeps_room(state, cond_var, body, left);
            },
            _ => {},
        }
    }
}

/// From a state with room for the budget, statements that run to their end
/// lead to a state with room for the steps that are left.
pub proof fn law_run_keeps_room(st: State, stmts: Seq<Stmt>, at: nat, steps: nat)
    requires
        st.has_room(steps),
    ensures
        run_from(st, stmts, at, steps) matches Outcome::Done { state, left } ==> state.has_room(
            left,
        ),
    decreases steps, 1nat, stmts.len() - at,
{
    if at < stmts.len() {
        law_statement_keeps_room(st, stmts[at as int], steps);
        law_statement_spends_steps(st, stmts[at as int], steps);
        match run_stmt(st, stmts[at as int], steps) {
            Outcome::Done { state, left } => {
                law_run_keeps_room(state, stmts, at + 1, left);
            },
            _ => {},
        }
    }
}

/// Whether no variable of a state is below 0.
pub open spec fn non_negative(st: State) -> bool {
    forall|v: Name| #[trigger] st.values.contains_key(v) ==> st.values[v] >= 0
}

/// Reading the argument variables of a call brings no value below 0.
pub proof fn lemma_reading_keeps_non_negative(st: State, args: Seq<Name>, n: nat)
    requires
        non_negative(st),
    ensures
        non_negative(after_reading(st, args, n)),
    decreases n,
{
    if n > 0 {
        lemma_reading_keeps_non_negative(st, args, (n - 1) as nat);
    }
}

/// The frame of a call from a state with no value below 0 has no value below
/// 0, and binds nothing but parameters.
pub proof fn lemma_frame_is_non_negative(
    st: State,
    parameters: Seq<Name>,
    args: Seq<Name>,
    n: nat,
)
    requires
        non_negative(st),
    ensures
        non_negative(frame(st, parameters, args, n)),
    decreases n,
{
    if n > 0 {
        lemma_frame_is_non_negative(st, parameters, args, (n - 1) as nat);
    }
}

/// From a state with no value below 0, a statement leads to a state with no
/// value below 0.
pub proof fn law_statement_keeps_non_negative(st: State, s: Stmt, steps: nat)
    requires
        non_negative(st),
    ensures
        non_negative(state_of(run_stmt(st, s, steps))),
    decreases steps, 0nat, 0nat,
{
    if steps > 0 {
        let left = (steps - 1) as nat;
        match s {
            Stmt::While { cond_var, body } => {
                law_loop_keeps_non_negative(st, cond_var, body, left);
            },
            Stmt::Assign { var_name, fun_name, args } => {
                if st.functions.contains_key(fun_name) {
                    let f = st.functions[fun_name];
                    if args.len() == f.parameters.len() {
                        let callee = frame(st, f.parameters, args, args.len());
                        lemma_reading_keeps_non_negative(st, args, args.len());
                        lemma_frame_is_non_negative(st, f.parameters, args, args.len());
                        law_run_keeps_non_negative(callee, f.body, 0, left);
                    }
                }
            },
            _ => {},
        }
    }
}

/// From a state with no value below 0, a loop leads to a state with no value
/// below 0.
pub proof fn law_loop_keeps_non_negative(st: State, cond_var: Name, body: Seq<Stmt>, steps: nat)
    requires
        non_negative(st),
    ensures
        non_negative(state_of(run_loop(st, cond_var, body, steps))),
    decreases steps, 0nat, 0nat,
{
    let read = st.touch(cond_var);
    if read.value_of(cond_var) != 0 && steps > 0 {
        law_run_keeps_non_negative(read, body, 0, (steps - 1) as nat);
        match run_from(read, body, 0, (steps - 1) as nat) {
            Outcome::Done { state, left } => {
                law_loop_keeps_non_negative(
                    state,
                    cond_var,
                    body,
                    at_most(left, (steps - 1) as nat),
                );
            },
            _ => {},
        }
    }
}

/// From a state with no value below 0, statements lead to a state with no
/// value below 0.
pub proof fn law_run_keeps_non_negative(st: State, stmts: Seq<Stmt>, at: nat, steps: nat)
    requires
        non_negative(st),
    ensures
        non_negative(state_of(run_from(st, stmts, at, steps))),
    decreases steps, 1nat, stmts.len() - at,
{
    if at < stmts.len() {
        law_statement_keeps_non_negative(st, stmts[at as int], steps);
        match run_stmt(st, stmts[at as int], steps) {
            Outcome::Done { state, left } => {
                law_run_keeps_non_negative(state, stmts, at + 1, at_most(left, steps));
            },
            _ => {},
        }
    }
}

/// A function that is defined stays defined, whatever statement runs.
pub proof fn law_statement_keeps_functions(st: State, s: Stmt, steps: nat, name: Name)
    requires
        st.functions.contains_key(name),
    ensures
        state_of(run_stmt(st, s, steps)).functions.contains_key(name),
    decreases steps, 0nat, 0nat,
{
    if steps > 0 {
        let left = (steps - 1) as nat;
        match s {
            Stmt::While { cond_var, body } => {
                law_loop_keeps_functions(st, cond_var, body, left, name);
            },
            Stmt::Assign { var_name, fun_name, args } => {
                lemma_reading_keeps_values(st, args, args.len(), var_name);
            },
            _ => {},
        }
    }
}

/// A function that is defined stays defined, whatever loop runs.
pub proof fn law_loop_keeps_functions(
    st: State,
    cond_var: Name,
    body: Seq<Stmt>,
    steps: nat,
    name: Name,
)
    requires
        st.functions.contains_key(name),
    ensures
        state_of(run_loop(st, cond_var, body, steps)).functions.contains_key(name),
    decreases steps, 0nat, 0nat,
{
    let read = st.touch(cond_var);
    if read.value_of(cond_var) != 0 && steps > 0 {
        law_run_keeps_functions(read, body, 0, (steps - 1) as nat, name);
        match run_from(read, body, 0, (steps - 1) as nat) {
            Outcome::Done { state, left } => {
                law_loop_keeps_functions(
                    state,
                    cond_var,
                    body,
                    at_most(left, (steps - 1) as nat),
                    name,
                );
            },
            _ => {},
        }
    }
}

/// A function that is defined stays defined, whatever statements run.
pub proof fn law_run_keeps_functions(
    st: State,
    stmts: Seq<Stmt>,
    at: nat,
    steps: nat,
    name: Name,
)
    requires
        st.functions.contains_key(name),
    ensures
        state_of(run_from(st, stmts, at, steps)).functions.contains_key(name),
    decreases steps, 1nat, stmts.len() - at,
{
    if at < stmts.len() {
        law_statement_keeps_functions(st, stmts[at as int], steps, name);
        match run_stmt(st, stmts[at as int], steps) {
            Outcome::Done { state, left } => {
                law_run_keeps_functions(state, stmts, at + 1, at_most(left, steps), name);
            },
            _ => {},
        }
    }
}

/// A call changes the value of no variable but its target, and defines no
/// function: what the function does stays in its frame.
pub proof fn law_call_changes_its_target_only(
    st: State,
    var_name: Name,
    fun_name: Name,
    args: Seq<Name>,
    steps: nat,
    w: Name,
)
    requires
        w != var_name,
    ensures
        state_of(run_stmt(st, Stmt::Assign { var_name, fun_name, args }, steps)).value_of(w)
            == st.value_of(w),
        state_of(run_stmt(st, Stmt::Assign { var_name, fun_name, args }, steps)).functions
            == st.functions,
{
    lemma_reading_keeps_values(st, args, args.len(), w);
}

/// The frame of a call binds parameters of the function and nothing else.
pub proof fn law_frame_binds_parameters_only(
    st: State,
    parameters: Seq<Name>,
    args: Seq<Name>,
    n: nat,
    w: Name,
)
    requires
        n <= parameters.len(),
        frame(st, parameters, args, n).values.contains_key(w),
    ensures
        exists|i: int| 0 <= i < n && parameters[i] == w,
    decreases n,
{
    if n > 0 {
        if parameters[n - 1] != w {
            law_frame_binds_parameters_only(st, parameters, args, (n - 1) as nat, w);
            let i = choose|i: int| 0 <= i < n - 1 && parameters[i] == w;
            assert(0 <= i < n && parameters[i] == w);
        } else {
            assert(0 <= n - 1 < n && parameters[n - 1] == w);
        }
    }
}

} // verus!
