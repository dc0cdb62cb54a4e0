use indexmap::IndexMap;
use minipython::ast::Ast;
use minipython::interpreter::{
    interpret, interpret_program, try_interpret_program, Env, EvalError, Func, FuncTable,
};
use minipython::parser::program;

fn parse(text: &str) -> Vec<Ast> {
    let input: Vec<char> = text.chars().collect();
    program(&input).unwrap()
}

fn incr(name: &str) -> Ast {
    Ast::Incr { var_name: String::from(name) }
}

fn decr(name: &str) -> Ast {
    Ast::Decr { var_name: String::from(name) }
}

fn call(target: &str, function: &str, args: &[&str]) -> Ast {
    Ast::Assign {
        var_name: String::from(target),
        fun_name: String::from(function),
        args: args.iter().map(|a| String::from(*a)).collect(),
    }
}

fn empty<'a>() -> Env<'a> {
    Env::new(&IndexMap::new())
}

fn with<'a>(bindings: &[(&'a str, i64)]) -> Env<'a> {
    let mut initial: IndexMap<&str, i64> = IndexMap::new();
    for (name, value) in bindings {
        initial.insert(*name, *value);
    }
    Env::new(&initial)
}

#[test]
fn a_variable_that_was_never_bound_reads_as_zero() {
    let mut env = empty();
    assert_eq!(env.try_get("v"), None);
    assert_eq!(env.get_or_create("v"), 0);
    assert_eq!(env.try_get("v"), Some(&0));
    assert_eq!(env.to_text(), "[v: 0]");
}

#[test]
fn reading_a_bound_variable_changes_nothing() {
    let mut env = with(&[("a", 7), ("b", -2)]);
    assert_eq!(env.get_or_create("b"), -2);
    assert_eq!(env.get_or_create("a"), 7);
    assert_eq!(env.to_text(), "[a: 7, b: -2]");
}

#[test]
fn set_binds_at_the_end_and_rebinds_in_place() {
    let mut env = with(&[("a", 1)]);
    env.set("b", 2);
    env.set("a", 3);
    env.set("c", 4);
    assert_eq!(env.try_get("a"), Some(&3));
    assert_eq!(env.try_get("b"), Some(&2));
    assert_eq!(env.to_text(), "[a: 3, b: 2, c: 4]");
}

#[test]
fn new_copies_the_bindings() {
    let mut initial: IndexMap<&str, i64> = IndexMap::new();
    initial.insert("z", 26);
    initial.insert("a", 1);
    let mut env = Env::new(&initial);
    env.set("z", 0);
    assert_eq!(initial.get("z"), Some(&26));
    assert_eq!(env.to_text(), "[z: 0, a: 1]");
    assert_eq!(env.get_result(), None);
    assert!(env.get_function("z").is_err());
}

#[test]
fn the_result_is_read_as_any_variable_is() {
    let mut env = with(&[("a", 5)]);
    assert_eq!(env.get_result(), None);
    env.set_result("a");
    assert_eq!(env.get_result(), Some(5));
    env.set_result("r");
    assert_eq!(env.get_result(), Some(0));
    assert_eq!(env.to_text(), "[a: 5, r: 0]");
}

#[test]
fn a_function_is_found_under_its_name() {
    let body_one = vec![incr("x")];
    let body_two = vec![decr("x")];
    let parameters = vec![String::from("x")];
    let none: Vec<String> = Vec::new();
    let mut env = empty();
    env.set_function("one", Func::new(&body_one, &parameters));
    env.set_function("two", Func::new(&body_two, &none));
    assert_eq!(env.get_function("one"), Ok(&Func::new(&body_one, &parameters)));
    assert_eq!(env.get_function("two"), Ok(&Func::new(&body_two, &none)));
    assert_eq!(
        env.get_function("on"),
        Err(EvalError::FunctionNotFound { name: String::from("on") })
    );
    assert_eq!(env.get_function("one").unwrap().body(), &body_one);
    assert_eq!(env.get_function("one").unwrap().parameters(), &parameters);
}

#[test]
fn a_second_definition_takes_the_place_of_the_first() {
    let body_one = vec![incr("x")];
    let body_two = vec![decr("x")];
    let parameters = vec![String::from("x")];
    let mut env = empty();
    env.set_function("f", Func::new(&body_one, &parameters));
    env.set_function("g", Func::new(&body_one, &parameters));
    env.set_function("f", Func::new(&body_two, &parameters));
    assert_eq!(env.get_function("f"), Ok(&Func::new(&body_two, &parameters)));
    assert_eq!(env.get_function("g"), Ok(&Func::new(&body_one, &parameters)));
}

#[test]
fn a_table_and_its_copy_are_apart() {
    let body = vec![incr("x")];
    let parameters = vec![String::from("x")];
    let mut table = FuncTable::new();
    assert!(table.get("f").is_none());
    table.insert("f", Func::new(&body, &parameters));
    let copy = table.copy();
    table.insert("g", Func::new(&body, &parameters));
    assert!(copy.get("f").is_some());
    assert!(copy.get("g").is_none());
    assert!(table.get("g").is_some());
}

#[test]
fn a_frame_has_its_bindings_and_functions_and_no_result() {
    let body = vec![incr("x")];
    let parameters = vec![String::from("x")];
    let mut table = FuncTable::new();
    table.insert("f", Func::new(&body, &parameters));
    let mut context: IndexMap<&str, i64> = IndexMap::new();
    context.insert("x", 4);
    let mut frame = Env::from_parent(context, table);
    assert_eq!(frame.try_get("x"), Some(&4));
    assert!(frame.get_function("f").is_ok());
    assert_eq!(frame.get_result(), None);
}

#[test]
fn increment_adds_one() {
    let (a, b) = (incr("a"), incr("b"));
    let mut env = with(&[("a", 41)]);
    assert_eq!(interpret(&mut env, &a, 10), Ok(9));
    assert_eq!(interpret(&mut env, &b, 9), Ok(8));
    assert_eq!(env.to_text(), "[a: 42, b: 1]");
}

#[test]
fn decrement_stops_at_zero() {
    let (a, b, c, d) = (decr("a"), decr("b"), decr("c"), decr("d"));
    let mut env = with(&[("a", 0), ("b", 5), ("c", 1)]);
    assert_eq!(interpret(&mut env, &a, 10), Ok(9));
    assert_eq!(interpret(&mut env, &b, 9), Ok(8));
    assert_eq!(interpret(&mut env, &c, 8), Ok(7));
    assert_eq!(interpret(&mut env, &d, 7), Ok(6));
    assert_eq!(env.to_text(), "[a: 0, b: 4, c: 0, d: 0]");
}

#[test]
fn decrement_of_a_value_below_zero_gives_zero() {
    let (a, b) = (decr("a"), decr("b"));
    let mut env = with(&[("a", -5), ("b", i64::MIN)]);
    assert_eq!(interpret(&mut env, &a, 2), Ok(1));
    assert_eq!(interpret(&mut env, &b, 1), Ok(0));
    assert_eq!(env.to_text(), "[a: 0, b: 0]");
}

#[test]
fn increment_then_decrement_restores_the_value() {
    for start in [0i64, 1, 41, 1 << 40] {
        let mut env = with(&[("a", start), ("b", 9)]);
        let both = vec![incr("a"), decr("a")];
        assert_eq!(interpret_program(&mut env, &both, 2), Ok(0));
        assert_eq!(env.try_get("a"), Some(&start));
        assert_eq!(env.try_get("b"), Some(&9));
    }
    let mut env = empty();
    let both = vec![incr("a"), decr("a")];
    assert_eq!(interpret_program(&mut env, &both, 5), Ok(3));
    assert_eq!(env.to_text(), "[a: 0]");
}

#[test]
fn decrement_then_increment_of_zero_does_not_restore_it() {
    let mut env = with(&[("a", 0)]);
    let both = vec![decr("a"), incr("a")];
    assert_eq!(interpret_program(&mut env, &both, 2), Ok(0));
    assert_eq!(env.try_get("a"), Some(&1));
}

#[test]
fn a_loop_runs_its_body_until_the_variable_is_zero() {
    let tree = parse("while a!=0: a-=1; #endwhile");
    let mut env = with(&[("a", 3)]);
    // one step for the loop, and for each of the three rounds one for the
    // entry into the body and one for the decrement
    assert_eq!(interpret_program(&mut env, &tree, 100), Ok(93));
    assert_eq!(env.try_get("a"), Some(&0));
    let mut env = with(&[("a", 3)]);
    assert_eq!(interpret_program(&mut env, &tree, 7), Ok(0));
    assert_eq!(env.try_get("a"), Some(&0));
}

#[test]
fn a_loop_on_zero_runs_nothing_and_binds_its_variable() {
    let tree = parse("while a!=0: b+=1; #endwhile");
    let mut env = empty();
    assert_eq!(interpret_program(&mut env, &tree, 10), Ok(9));
    assert_eq!(env.to_text(), "[a: 0]");
}

#[test]
fn a_loop_counts_up_from_below_zero() {
    let tree = parse("while a!=0: a+=1; n+=1 #endwhile");
    let mut env = with(&[("a", -3)]);
    assert_eq!(interpret_program(&mut env, &tree, 100), Ok(90));
    assert_eq!(env.to_text(), "[a: 0, n: 3]");
}

#[test]
fn the_budget_ends_a_loop_that_would_not_end() {
    let tree = parse("a+=1; while a!=0: b+=1 #endwhile; c+=1");
    let mut env = empty();
    assert_eq!(interpret_program(&mut env, &tree, 10), Err(EvalError::OutOfSteps));
    // the increment, the loop, and four rounds of two steps
    assert_eq!(env.to_text(), "[a: 1, b: 4]");
}

#[test]
fn the_budget_ends_a_loop_with_an_empty_body() {
    let tree = vec![Ast::While { cond_var: String::from("a"), body: vec![] }];
    let mut env = with(&[("a", 1)]);
    assert_eq!(interpret_program(&mut env, &tree, 1000), Err(EvalError::OutOfSteps));
    assert_eq!(env.to_text(), "[a: 1]");
}

#[test]
fn one_step_too_few_is_too_few() {
    let tree = parse("while a!=0: a-=1; #endwhile");
    let mut env = with(&[("a", 3)]);
    assert_eq!(interpret_program(&mut env, &tree, 6), Err(EvalError::OutOfSteps));
    assert_eq!(env.try_get("a"), Some(&1));
    let (one, none) = (vec![incr("a")], vec![]);
    let mut env = empty();
    assert_eq!(interpret_program(&mut env, &one, 0), Err(EvalError::OutOfSteps));
    assert_eq!(env.to_text(), "[]");
    assert_eq!(interpret_program(&mut env, &none, 0), Ok(0));
}

#[test]
fn a_call_adds_two_numbers() {
    let tree = parse("x1+=1; def add(x, y): while x!=0: n+=1; x-=1 #endwhile; while y!=0: n+=1; y-=1 #endwhile; return n #enddef; a=add(x1, y1); a+=1");
    let mut env = empty();
    // x1+=1, def, the call, in its body: the first loop with one round of
    // three steps, the second loop, the return; then a+=1
    assert_eq!(interpret_program(&mut env, &tree, 100), Ok(90));
    assert_eq!(env.try_get("x1"), Some(&1));
    assert_eq!(env.try_get("y1"), Some(&0));
    assert_eq!(env.try_get("a"), Some(&2));
    assert_eq!(env.try_get("n"), None);
    assert_eq!(env.try_get("x"), None);
    assert_eq!(env.to_text(), "[x1: 1, y1: 0, a: 2]");
    assert!(env.get_function("add").is_ok());
    assert_eq!(env.get_result(), None);
}

#[test]
fn a_call_leaves_the_variables_of_its_arguments_as_they_are() {
    let tree = parse("def zero(x): while x!=0: x-=1 #endwhile; return x #enddef; r=zero(a)");
    let mut env = with(&[("a", 3), ("x", 8)]);
    assert_eq!(interpret_program(&mut env, &tree, 100), Ok(90));
    assert_eq!(env.to_text(), "[a: 3, x: 8, r: 0]");
}

#[test]
fn a_call_of_an_undefined_function_fails_and_changes_nothing() {
    let statement = call("a", "f", &["x", "y"]);
    let mut env = with(&[("x", 1)]);
    let before = env.to_text();
    assert_eq!(
        interpret(&mut env, &statement, 10),
        Err(EvalError::FunctionNotFound { name: String::from("f") })
    );
    assert_eq!(env.to_text(), before);
    assert_eq!(env.try_get("a"), None);
    assert_eq!(env.try_get("y"), None);
}

#[test]
fn a_failing_statement_ends_the_program_there() {
    let tree = parse("x+=1; a=f(y); x+=1");
    let mut env = empty();
    assert_eq!(
        interpret_program(&mut env, &tree, 100),
        Err(EvalError::FunctionNotFound { name: String::from("f") })
    );
    assert_eq!(env.to_text(), "[x: 1]");
}

#[test]
fn a_call_with_too_few_arguments_fails() {
    let tree = parse("def add(x, y): return x #enddef; a=add(b)");
    let mut env = empty();
    assert_eq!(
        interpret_program(&mut env, &tree, 100),
        Err(EvalError::ArityMismatch { name: String::from("add"), expected: 2, found: 1 })
    );
    assert_eq!(env.to_text(), "[]");
}

#[test]
fn a_call_with_too_many_arguments_fails() {
    let tree = parse("def id(x): return x #enddef; a=id(b, c, d)");
    let mut env = with(&[("b", 1)]);
    assert_eq!(
        interpret_program(&mut env, &tree, 100),
        Err(EvalError::ArityMismatch { name: String::from("id"), expected: 1, found: 3 })
    );
    assert_eq!(env.to_text(), "[b: 1]");
}

#[test]
fn a_function_without_a_return_fails_the_call() {
    let tree = parse("def f(x): x+=1 #enddef; a=f(b)");
    let mut env = empty();
    assert_eq!(
        interpret_program(&mut env, &tree, 100),
        Err(EvalError::MissingReturn { name: String::from("f") })
    );
    // the argument was read, the target was not bound
    assert_eq!(env.to_text(), "[b: 0]");
}

#[test]
fn a_return_in_a_loop_that_does_not_run_is_no_return() {
    let tree = parse("def f(x): while x!=0: return x #endwhile; #enddef; a=f(b)");
    let mut env = empty();
    assert_eq!(
        interpret_program(&mut env, &tree, 100),
        Err(EvalError::MissingReturn { name: String::from("f") })
    );
    let mut env = with(&[("b", 1)]);
    // the loop would not end: its body only designates the result
    assert_eq!(interpret_program(&mut env, &tree, 100), Err(EvalError::OutOfSteps));
}

#[test]
fn the_statements_after_a_return_still_run() {
    let tree = parse("def f(x): return x; x+=1; x+=1 #enddef; a=f(b)");
    let mut env = with(&[("b", 5)]);
    assert_eq!(interpret_program(&mut env, &tree, 100), Ok(95));
    assert_eq!(env.try_get("a"), Some(&7));
}

#[test]
fn the_last_return_that_ran_gives_the_result() {
    let tree = parse("def f(x): return x; y+=1; return y; x+=1 #enddef; a=f(b)");
    let mut env = with(&[("b", 5)]);
    assert_eq!(interpret_program(&mut env, &tree, 100), Ok(94));
    assert_eq!(env.try_get("a"), Some(&1));
}

#[test]
fn a_return_may_name_a_variable_that_is_not_bound() {
    let tree = parse("def f(x): return nothing #enddef; a+=1; a=f(a)");
    let mut env = empty();
    assert_eq!(interpret_program(&mut env, &tree, 100), Ok(96));
    assert_eq!(env.to_text(), "[a: 0]");
}

#[test]
fn a_return_at_the_top_designates_the_result_of_the_program() {
    let tree = parse("a+=1; return a; a+=1");
    let mut env = empty();
    assert_eq!(interpret_program(&mut env, &tree, 100), Ok(97));
    assert_eq!(env.get_result(), Some(2));
}

#[test]
fn a_frame_has_no_variable_of_the_caller() {
    let tree = parse("g+=1; def f(x): return g #enddef; a=f(g)");
    let mut env = empty();
    assert_eq!(interpret_program(&mut env, &tree, 100), Ok(96));
    assert_eq!(env.to_text(), "[g: 1, a: 0]");
}

#[test]
fn a_function_sees_the_functions_defined_before_the_call() {
    let tree = parse(
        "def two(x): x+=1; x+=1; return x #enddef; def four(x): y=two(x); z=two(y); return z #enddef; a=four(a)",
    );
    let mut env = empty();
    // two definitions and the call of four; in it two calls of four steps
    // each, and the return
    assert_eq!(interpret_program(&mut env, &tree, 100), Ok(88));
    assert_eq!(env.to_text(), "[a: 4]");
}

#[test]
fn a_function_does_not_see_a_function_defined_after_the_call() {
    let tree = parse("def f(x): y=g(x); return y #enddef; a=f(a); def g(x): return x #enddef");
    let mut env = empty();
    assert_eq!(
        interpret_program(&mut env, &tree, 100),
        Err(EvalError::FunctionNotFound { name: String::from("g") })
    );
}

#[test]
fn a_function_defined_in_a_call_is_gone_after_it() {
    let tree = parse(
        "def f(x): def g(y): return y #enddef; r=g(x); return r #enddef; a+=1; b=f(a); c=g(a)",
    );
    let mut env = empty();
    assert_eq!(
        interpret_program(&mut env, &tree, 100),
        Err(EvalError::FunctionNotFound { name: String::from("g") })
    );
    assert_eq!(env.to_text(), "[a: 1, b: 1]");
}

#[test]
fn a_redefinition_in_a_call_is_gone_after_it() {
    let tree = parse(
        "def g(y): return y #enddef; def f(x): def g(y): y+=1; return y #enddef; r=g(x); return r #enddef; b=f(a); c=g(a)",
    );
    let mut env = empty();
    // two definitions, six steps for the call of f, two for that of g
    assert_eq!(interpret_program(&mut env, &tree, 100), Ok(90));
    assert_eq!(env.to_text(), "[a: 0, b: 1, c: 0]");
}

#[test]
fn a_function_may_call_itself() {
    let tree = parse(
        "def down(x): while x!=0: x-=1; n=down(x); n+=1; return n; x=zero(x) #endwhile; return n #enddef; def zero(x): return z #enddef; a+=1; a+=1; a+=1; d=down(a)",
    );
    let mut env = empty();
    let left = interpret_program(&mut env, &tree, 1000).unwrap();
    assert_eq!(env.to_text(), "[a: 3, d: 3]");
    // a call on 0 takes 3 steps, a call on more takes 9 and the call in it
    assert_eq!(left, 1000 - 5 - 30);
}

#[test]
fn a_call_that_never_ends_runs_out_of_steps() {
    let tree = parse("def f(x): y=f(x); return y #enddef; a=f(a)");
    let mut env = empty();
    assert_eq!(interpret_program(&mut env, &tree, 500), Err(EvalError::OutOfSteps));
    assert_eq!(env.to_text(), "[a: 0]");
}

#[test]
fn of_two_parameters_with_one_name_the_later_argument_counts() {
    let tree = parse("def f(x, x): return x #enddef; a+=1; r=f(a, b)");
    let mut env = empty();
    assert_eq!(interpret_program(&mut env, &tree, 100), Ok(96));
    assert_eq!(env.to_text(), "[a: 1, b: 0, r: 0]");
}

#[test]
fn the_empty_name_is_a_variable() {
    let tree = parse("+=1; +=1; def (): +=1; return #enddef; r=()");
    let mut env = empty();
    assert_eq!(interpret_program(&mut env, &tree, 100), Ok(94));
    assert_eq!(env.to_text(), "[: 2, r: 3]");
}

#[test]
fn the_target_of_a_call_may_be_one_of_its_arguments() {
    let tree = parse("def inc(x): x+=1; return x #enddef; a=inc(a); a=inc(a)");
    let mut env = empty();
    assert_eq!(interpret_program(&mut env, &tree, 100), Ok(93));
    assert_eq!(env.to_text(), "[a: 2]");
}

#[test]
fn more_steps_change_nothing_but_the_steps_that_are_left() {
    let tree = parse("a+=1; a+=1; while a!=0: a-=1; b+=1 #endwhile");
    let mut small = empty();
    let mut large = empty();
    assert_eq!(interpret_program(&mut small, &tree, 9), Ok(0));
    assert_eq!(interpret_program(&mut large, &tree, 9 + 1000), Ok(1000));
    assert_eq!(small.to_text(), large.to_text());
}

#[test]
fn room_is_counted_from_the_largest_value() {
    let env = with(&[("a", i64::MAX - 10), ("b", 3)]);
    assert!(env.has_room(10));
    assert!(!env.has_room(11));
    assert!(empty().has_room(i64::MAX as u64));
    assert!(!empty().has_room(i64::MAX as u64 + 1));
    assert!(with(&[("a", i64::MIN)]).has_room(i64::MAX as u64));
    assert!(with(&[("a", i64::MAX)]).has_room(0));
    assert!(!with(&[("a", i64::MAX)]).has_room(1));
}

#[test]
fn without_room_nothing_runs() {
    let tree = vec![incr("b")];
    let mut env = with(&[("a", i64::MAX)]);
    assert_eq!(try_interpret_program(&mut env, &tree, 1), None);
    assert_eq!(env.to_text(), "[a: 9223372036854775807]");
    assert_eq!(try_interpret_program(&mut env, &tree, 0), Some(Err(EvalError::OutOfSteps)));
    let one_more = vec![incr("a")];
    let mut env = with(&[("a", i64::MAX - 1)]);
    assert_eq!(try_interpret_program(&mut env, &one_more, 1), Some(Ok(0)));
    assert_eq!(env.to_text(), "[a: 9223372036854775807]");
}

#[test]
fn values_are_written_in_decimal() {
    let env = with(&[("a", 0), ("b", -1), ("c", 10), ("d", i64::MIN), ("e", 1234567890)]);
    assert_eq!(env.to_text(), "[a: 0, b: -1, c: 10, d: -9223372036854775808, e: 1234567890]");
    assert_eq!(empty().to_text(), "[]");
}

#[test]
fn statements_are_written_on_one_line() {
    let tree = parse("x1+=1; def add(x, y): while x!=0: n+=1; x-=1 #endwhile; return n #enddef; a=add(x1, y1); b-=1");
    let texts: Vec<String> = tree.iter().map(|t| t.to_text()).collect();
    assert_eq!(
        texts,
        vec![
            "x1+=1",
            "def add(x, y): while x!=0: n+=1; x-=1; return n",
            "a=add(x1, y1)",
            "b-=1",
        ]
    );
    assert_eq!(Ast::While { cond_var: String::from("a"), body: vec![] }.to_text(), "while a!=0: ");
    assert_eq!(call("a", "f", &[]).to_text(), "a=f()");
    assert_eq!(call("a", "f", &["x"]).to_text(), "a=f(x)");
    let mut out = String::from("Executing: ");
    incr("a").write_text(&mut out);
    assert_eq!(out, "Executing: a+=1");
}

#[test]
fn an_error_says_what_went_wrong() {
    assert_eq!(
        EvalError::FunctionNotFound { name: String::from("add") }.to_text(),
        "Function add does not exist"
    );
    assert_eq!(
        EvalError::ArityMismatch { name: String::from("add"), expected: 2, found: 10 }.to_text(),
        "Function add expected 2 arguments, but got 10"
    );
    assert_eq!(
        EvalError::MissingReturn { name: String::from("f") }.to_text(),
        "Function f returned no result"
    );
    assert_eq!(EvalError::OutOfSteps.to_text(), "The program did not end within its steps");
}

#[test]
fn values_of_zero_or_more_stay_so() {
    let tree = parse(
        "def f(x): x-=1; x-=1; return x #enddef; a+=1; b=f(a); c-=1; while a!=0: a-=1; d=f(d) #endwhile",
    );
    let mut env = with(&[("e", 0)]);
    // a definition, three statements of one, four and one step, and a loop of seven
    assert_eq!(interpret_program(&mut env, &tree, 100), Ok(86));
    assert_eq!(env.to_text(), "[e: 0, a: 0, b: 0, c: 0, d: 0]");
}

#[test]
fn a_function_stays_defined_to_the_end() {
    let tree = parse("def f(x): return x #enddef; a=f(a); while b!=0: b-=1 #endwhile; c=g(c)");
    let mut env = with(&[("b", 2)]);
    assert_eq!(
        interpret_program(&mut env, &tree, 100),
        Err(EvalError::FunctionNotFound { name: String::from("g") })
    );
    assert!(env.get_function("f").is_ok());
}
