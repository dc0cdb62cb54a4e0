use crate::ast::{Name, Stmt};
use vstd::prelude::*;

verus! {

/// A function of the language: its parameter names and its body.
pub struct FuncModel {
    pub parameters: Seq<Name>,
    pub body: Seq<Stmt>,
}

/// What an environment holds: the value of each bound variable, the order in
/// which the variables were first bound, the functions defined so far, and the
/// name that the last `Return` designated.
pub struct State {
    pub values: Map<Name, int>,
    pub order: Seq<Name>,
    pub functions: Map<Name, FuncModel>,
    pub result_name: Option<Name>,
}

/// Why a run stopped before the end of its statements.
pub enum Fault {
    /// A call named a function that was not defined.
    FunctionNotFound { name: Name },
    /// A call gave `found` arguments to a function of `expected` parameters.
    ArityMismatch { name: Name, expected: nat, found: nat },
    /// The body of the called function ended and no `Return` had run.
    MissingReturn { name: Name },
    /// The step budget ran out.
    OutOfSteps,
}

/// How a run ended, and the state it left.
pub enum Outcome {
    /// Every statement ran; `left` steps of the budget were not spent.
    Done { state: State, left: nat },
    /// The run stopped at a statement that failed; `state` is the state then.
    Failed { state: State, fault: Fault },
}

/// The value after a decrement: one less, and never below zero.
pub open spec fn decremented(x: int) -> int {
    if x <= 0 {
        0
    } else {
        x - 1
    }
}

/// The smaller of a number of steps and a cap. A run leaves no more steps
/// than it was given, so this changes no number of steps: it is what makes
/// the definitions below well founded.
pub open spec fn at_most(left: nat, cap: nat) -> nat {
    if left <= cap {
        left
    } else {
        cap
    }
}

impl State {
    /// A state with no variable bound, the given functions and no result name.
    pub open spec fn fresh(functions: Map<Name, FuncModel>) -> State {
        State { values: Map::empty(), order: Seq::empty(), functions, result_name: None }
    }

    /// Reading a variable: its value, or 0 if it is not bound.
    pub open spec fn value_of(self, v: Name) -> int {
        if self.values.contains_key(v) {
            self.values[v]
        } else {
            0
        }
    }

    /// The state with `v` bound to `x`. A variable bound for the first time
    /// goes to the end of the order; one that was bound keeps its place.
    pub open spec fn bind(self, v: Name, x: int) -> State {
        State {
            values: self.values.insert(v, x),
            order: if self.values.contains_key(v) {
                self.order
            } else {
                self.order.push(v)
            },
            ..self
        }
    }

    /// The state after reading `v`: an unbound variable is bound to 0.
    pub open spec fn touch(self, v: Name) -> State {
        if self.values.contains_key(v) {
            self
        } else {
            self.bind(v, 0)
        }
    }

    /// The state with function `name` defined, or redefined, as `f`.
    pub open spec fn define(self, name: Name, f: FuncModel) -> State {
        State { functions: self.functions.insert(name, f), ..self }
    }

    /// The state with `name` designated as the result variable.
    pub open spec fn designate(self, name: Name) -> State {
        State { result_name: Some(name), ..self }
    }

    /// Whether `steps` more steps can run from this state with every value
    /// still within 64 bits: a step raises a value by at most one.
    pub open spec fn has_room(self, steps: nat) -> bool {
        &&& steps <= i64::MAX
        &&& forall|v: Name| #[trigger]
            self.values.contains_key(v) ==> i64::MIN <= self.values[v] && self.values[v] + steps
                <= i64::MAX
    }
}

/// Binding a variable that was just read is binding it.
pub proof fn lemma_bind_after_touch(st: State, v: Name, x: int)
    ensures
        st.touch(v).bind(v, x) == st.bind(v, x),
{
    assert(st.touch(v).bind(v, x).values =~= st.bind(v, x).values);
}

/// The caller's state after it has read the first `n` argument variables of a
/// call: each unbound one is bound to 0, in the order of the arguments.
pub open spec fn after_reading(st: State, args: Seq<Name>, n: nat) -> State
    decreases n,
{
    if n == 0 {
        st
    } else {
        after_reading(st, args, (n - 1) as nat).touch(args[n - 1])
    }
}

/// The frame of a call after its first `n` parameters are bound: parameter `i`
/// holds the value that argument variable `i` has in the caller. The frame has
/// the caller's functions, none of its variables, and no result name.
pub open spec fn frame(st: State, parameters: Seq<Name>, args: Seq<Name>, n: nat) -> State
    decreases n,
{
    if n == 0 {
        State::fresh(st.functions)
    } else {
        frame(st, parameters, args, (n - 1) as nat).bind(
            parameters[n - 1],
            st.value_of(args[n - 1]),
        )
    }
}

/// Reading the argument variables of a call changes the value of no variable,
/// nor the functions, nor the result name.
pub proof fn lemma_reading_keeps_values(st: State, args: Seq<Name>, n: nat, w: Name)
    ensures
        after_reading(st, args, n).value_of(w) == st.value_of(w),
        after_reading(st, args, n).functions == st.functions,
        after_reading(st, args, n).result_name == st.result_name,
    decreases n,
{
    if n > 0 {
        lemma_reading_keeps_values(st, args, (n - 1) as nat, w);
    }
}

/// The frame of a call has the caller's functions and no result name.
pub proof fn lemma_frame_shape(st: State, parameters: Seq<Name>, args: Seq<Name>, n: nat)
    ensures
        frame(st, parameters, args, n).functions == st.functions,
        frame(st, parameters, args, n).result_name is None,
    decreases n,
{
    if n > 0 {
        lemma_frame_shape(st, parameters, args, (n - 1) as nat);
    }
}

/// Running one statement with a budget of `steps`. Every statement costs one
/// step, and so does every entry into the body of a loop.
pub open spec fn run_stmt(st: State, s: Stmt, steps: nat) -> Outcome
    decreases steps, 0nat, 0nat,
{
    if steps == 0 {
        Outcome::Failed { state: st, fault: Fault::OutOfSteps }
    } else {
        let left = (steps - 1) as nat;
        match s {
            Stmt::Incr { var_name } => Outcome::Done {
                state: st.bind(var_name, st.value_of(var_name) + 1),
                left,
            },
            Stmt::Decr { var_name } => Outcome::Done {
                state: st.bind(var_name, decremented(st.value_of(var_name))),
                left,
            },
            Stmt::Return { name } => Outcome::Done { state: st.designate(name), left },
            Stmt::Def { name, parameters, body } => Outcome::Done {
                state: st.define(name, FuncModel { parameters, body }),
                left,
            },
            Stmt::While { cond_var, body } => run_loop(st, cond_var, body, left),
            Stmt::Assign { var_name, fun_name, args } => {
                if !st.functions.contains_key(fun_name) {
                    Outcome::Failed {
                        state: st,
                        fault: Fault::FunctionNotFound { name: fun_name },
                    }
                } else {
                    let f = st.functions[fun_name];
                    if args.len() != f.parameters.len() {
                        Outcome::Failed {
                            state: st,
                            fault: Fault::ArityMismatch {
                                name: fun_name,
                                expected: f.parameters.len(),
                                found: args.len(),
                            },
                        }
                    } else {
                        let caller = after_reading(st, args, args.len());
                        let callee = frame(st, f.parameters, args, args.len());
                        match run_from(callee, f.body, 0, left) {
                            Outcome::Failed { state: _, fault } => Outcome::Failed {
                                state: caller,
                                fault,
                            },
                            Outcome::Done { state: end, left: rest } => match end.result_name {
                                None => Outcome::Failed {
                                    state: caller,
                                    fault: Fault::MissingReturn { name: fun_name },
                                },
                                Some(r) => Outcome::Done {
                                    state: caller.bind(var_name, end.value_of(r)),
                                    left: rest,
                                },
                            },
                        }
                    }
                }
            },
        }
    }
}

/// Running a loop: read the condition variable; stop if it is 0, else run the
/// body once and start again.
pub open spec fn run_loop(st: State, cond_var: Name, body: Seq<Stmt>, steps: nat) -> Outcome
    decreases steps, 0nat, 0nat,
{
    let read = st.touch(cond_var);
    if read.value_of(cond_var) == 0 {
        Outcome::Done { state: read, left: steps }
    } else if steps == 0 {
        Outcome::Failed { state: read, fault: Fault::OutOfSteps }
    } else {
        match run_from(read, body, 0, (steps - 1) as nat) {
            Outcome::Done { state, left } => run_loop(
                state,
                cond_var,
                body,
                at_most(left, (steps - 1) as nat),
            ),
            failed => failed,
        }
    }
}

/// Running the statements of a sequence from index `at` on, in order. The run
/// stops at the first statement that fails.
pub open spec fn run_from(st: State, stmts: Seq<Stmt>, at: nat, steps: nat) -> Outcome
    decreases steps, 1nat, stmts.len() - at,
{
    if at >= stmts.len() {
        Outcome::Done { state: st, left: steps }
    } else {
        match run_stmt(st, stmts[at as int], steps) {
            Outcome::Done { state, left } => run_from(state, stmts, at + 1, at_most(left, steps)),
            failed => failed,
        }
    }
}

/// Running a program: all its statements, in order.
pub open spec fn run(st: State, program: Seq<Stmt>, steps: nat) -> Outcome {
    run_from(st, program, 0, steps)
}

} // verus!
