use tinyfn::expr::{Atom, Definition, Expression, Operation};
use tinyfn::interpreter::{Frame, State, INIT_HEAP_SIZE, INIT_STACK_SIZE};
use tinyfn::lexer::tokenize;
use tinyfn::module::Module;
use tinyfn::parser::parse;
use tinyfn::value::{Fault, HeapCell, Value};

fn var(name: &str) -> Atom {
    Atom::Var(name.to_string())
}

fn def(name: &str, params: &[&str], body: Expression) -> Definition {
    Definition {
        name: name.to_string(),
        params: params.iter().map(|p| p.to_string()).collect(),
        body,
    }
}

fn call(name: &str, args: Vec<Atom>) -> Expression {
    Expression::Call(name.to_string(), args)
}

fn apply(name: &str, args: Vec<Atom>) -> Expression {
    Expression::Apply(name.to_string(), args)
}

fn papp(name: &str, args: Vec<Atom>) -> Expression {
    Expression::Papp(name.to_string(), args)
}

fn bind(name: &str, value: Expression, body: Expression) -> Expression {
    Expression::Let(name.to_string(), Box::new(value), Box::new(body))
}

fn module_of(source: &str) -> Module {
    let tokens = tokenize(source).unwrap();
    let defs = parse(tokens).unwrap();
    Module::new(defs).unwrap()
}

fn run(source: &str) -> Result<Value, Fault> {
    let module = module_of(source);
    let mut state = State::with_capacity(1 << 12, 1 << 10);
    state.run(&module)
}

const LISTS: &str = "
fn (nil n c) {
  n
}

fn (cons x xs n c) {
  (apply c x xs)
}

fn (buildList n) {
  match n {
    0 => {
      (papp nil)
    }
    _ => {
      let m = (- n 1);
      let tail = (buildList m);
      (papp cons n tail)
    }
  }
}

fn (sumList xs) {
  let sum = (papp sumListAux);
  (apply xs 0 sum)
}

fn (sumListAux x ys) {
  let y = (sumList ys);
  (+ x y)
}
";

#[test]
fn identity_returns_its_argument() {
    let module = Module::new(vec![
        def("id", &["x"], Expression::Unit(var("x"))),
        def("main", &[], call("id", vec![Atom::Lit(7)])),
    ])
    .unwrap();
    let mut state = State::with_capacity(16, 16);
    assert_eq!(state.run(&module), Ok(Value::Num(7)));
}

#[test]
fn call_of_identity_on_a_prepared_state() {
    let module =
        Module::new(vec![def("id", &["x"], Expression::Unit(var("x")))]).unwrap();
    let mut state = State::with_capacity(16, 16);
    assert_eq!(state.call("id", &[Value::Num(7)], &module), Ok(Value::Num(7)));
    assert_eq!(
        state.call("id", &[Value::Ptr(3)], &module),
        Ok(Value::Ptr(3))
    );
}

#[test]
fn papp_then_apply_saturates_exactly() {
    let add = def(
        "add",
        &["x", "y"],
        Expression::Operate(Operation::Add, var("x"), var("y")),
    );
    let main = def(
        "main",
        &[],
        bind(
            "p",
            papp("add", vec![Atom::Lit(3)]),
            apply("p", vec![Atom::Lit(4)]),
        ),
    );
    let module = Module::new(vec![add, main]).unwrap();
    let mut state = State::with_capacity(16, 16);
    assert_eq!(state.run(&module), Ok(Value::Num(7)));
}

#[test]
fn saturated_apply_equals_the_call() {
    let module = module_of("fn (sub3 a b c) { let d = (- a b); (- d c) }");
    let mut applied = State::with_capacity(16, 16);
    let ptr = applied
        .alloc_on_heap(HeapCell::Papp(
            "sub3".to_string(),
            vec![Value::Num(50)],
        ))
        .unwrap();
    let by_apply = applied.apply(ptr, &[Value::Num(8), Value::Num(2)], &module);
    let mut called = State::with_capacity(16, 16);
    let by_call = called.call(
        "sub3",
        &[Value::Num(50), Value::Num(8), Value::Num(2)],
        &module,
    );
    assert_eq!(by_apply, Ok(Value::Num(40)));
    assert_eq!(by_apply, by_call);
}

#[test]
fn under_saturated_apply_builds_a_longer_closure() {
    let module = module_of("fn (sub3 a b c) { let d = (- a b); (- d c) }");
    let mut state = State::with_capacity(16, 16);
    let first = state
        .alloc_on_heap(HeapCell::Papp("sub3".to_string(), vec![Value::Num(50)]))
        .unwrap();
    assert_eq!(first, 0);
    let second = state.apply(first, &[Value::Num(8)], &module);
    assert_eq!(second, Ok(Value::Ptr(1)));
    assert_eq!(
        state.retrieve_ptr(1),
        Ok(&HeapCell::Papp(
            "sub3".to_string(),
            vec![Value::Num(50), Value::Num(8)]
        ))
    );
    assert_eq!(
        state.retrieve_ptr(0),
        Ok(&HeapCell::Papp("sub3".to_string(), vec![Value::Num(50)]))
    );
    assert_eq!(state.apply(1, &[Value::Num(2)], &module), Ok(Value::Num(40)));
}

#[test]
fn over_saturated_apply_consumes_the_returned_closure() {
    let source = "
fn (first x y) { x }
fn (pick a) { (papp first a) }
fn (main) {
  let p = (papp pick);
  (apply p 1 2)
}";
    assert_eq!(run(source), Ok(Value::Num(1)));
}

#[test]
fn over_saturated_apply_in_stages_gives_the_same() {
    let module = module_of(
        "
fn (first x y) { x }
fn (pick a) { (papp first a) }",
    );
    let mut at_once = State::with_capacity(16, 16);
    let p = at_once
        .alloc_on_heap(HeapCell::Papp("pick".to_string(), vec![]))
        .unwrap();
    let direct = at_once.apply(p, &[Value::Num(1), Value::Num(2)], &module);

    let mut staged = State::with_capacity(16, 16);
    let q = staged
        .alloc_on_heap(HeapCell::Papp("pick".to_string(), vec![]))
        .unwrap();
    let closure = staged.apply(q, &[Value::Num(1)], &module).unwrap();
    let next = closure.expect_ptr().unwrap();
    let in_stages = staged.apply(next, &[Value::Num(2)], &module);
    assert_eq!(direct, Ok(Value::Num(1)));
    assert_eq!(direct, in_stages);
}

#[test]
fn over_saturated_apply_on_a_number_faults() {
    let source = "
fn (id x) { x }
fn (main) {
  let p = (papp id);
  (apply p 1 2)
}";
    assert_eq!(run(source), Err(Fault::ExpectedClosure(Value::Num(1))));
}

#[test]
fn list_of_three_folds_to_its_sum() {
    let source = format!(
        "{}
fn (main) {{
  let e = (papp nil);
  let c = (papp cons 3 e);
  let b = (papp cons 2 c);
  let a = (papp cons 1 b);
  (sumList a)
}}",
        LISTS
    );
    assert_eq!(run(&source), Ok(Value::Num(6)));
}

#[test]
fn list_of_a_hundred_folds_to_its_sum() {
    let source = format!(
        "{}
fn (main) {{
  let xs = (buildList 100);
  (sumList xs)
}}",
        LISTS
    );
    assert_eq!(run(&source), Ok(Value::Num(5050)));
}

#[test]
fn unconsumed_closure_is_returned_as_a_pointer() {
    let source = format!(
        "{}
fn (main) {{
  (buildList 2)
}}",
        LISTS
    );
    let module = module_of(&source);
    let mut state = State::with_capacity(64, 64);
    assert_eq!(state.run(&module), Ok(Value::Ptr(2)));
    assert_eq!(
        state.retrieve_ptr(0),
        Ok(&HeapCell::Papp("nil".to_string(), vec![]))
    );
    assert_eq!(
        state.retrieve_ptr(2),
        Ok(&HeapCell::Papp(
            "cons".to_string(),
            vec![Value::Num(2), Value::Ptr(1)]
        ))
    );
    assert_eq!(state.retrieve_ptr(3), Err(Fault::InvalidPointer(3)));
}

#[test]
fn deep_recursion_overflows_the_stack() {
    let source = "
fn (spin n) { (spin n) }
fn (main) { (spin 0) }";
    let module = module_of(source);
    let mut state = State::with_capacity(16, 32);
    let fault = state.run(&module).unwrap_err();
    assert_eq!(fault, Fault::StackOverflow);
    assert!(fault.is_resource_exhaustion());
}

#[test]
fn recursion_within_the_stack_capacity_succeeds() {
    let source = "
fn (down n) {
  match n {
    0 => { 0 }
    _ => { let m = (- n 1); (down m) }
  }
}
fn (main) { (down 30) }";
    let module = module_of(source);
    let mut state = State::with_capacity(16, 32);
    assert_eq!(state.run(&module), Ok(Value::Num(0)));
    let mut state = State::with_capacity(16, 31);
    assert_eq!(state.run(&module), Err(Fault::StackOverflow));
}

#[test]
fn full_arena_is_out_of_memory() {
    let source = "
fn (id x) { x }
fn (main) {
  let a = (papp id);
  let b = (papp id);
  let c = (papp id);
  7
}";
    let module = module_of(source);
    let mut state = State::with_capacity(3, 16);
    assert_eq!(state.run(&module), Ok(Value::Num(7)));
    let mut state = State::with_capacity(2, 16);
    let fault = state.run(&module).unwrap_err();
    assert_eq!(fault, Fault::OutOfMemory);
    assert!(fault.is_resource_exhaustion());
}

#[test]
fn match_takes_the_default() {
    let source = "
fn (flag x) {
  match x {
    0 => { 1 }
    _ => { 0 }
  }
}
fn (main) { (flag 5) }";
    assert_eq!(run(source), Ok(Value::Num(0)));
}

#[test]
fn match_takes_the_equal_case() {
    let source = "
fn (flag x) {
  match x {
    0 => { 1 }
    5 => { 2 }
    _ => { 0 }
  }
}
fn (main) { (flag 5) }";
    assert_eq!(run(source), Ok(Value::Num(2)));
}

#[test]
fn match_without_default_fails_when_nothing_matches() {
    let source = "
fn (flag x) {
  match x {
    0 => { 1 }
  }
}
fn (main) { (flag 5) }";
    let fault = run(source).unwrap_err();
    assert_eq!(fault, Fault::MatchFailed(5));
    assert!(!fault.is_resource_exhaustion());
}

#[test]
fn match_is_independent_of_the_order_of_its_cases() {
    let one = "
fn (pick x) {
  match x {
    1 => { 10 }
    2 => { 20 }
    3 => { 30 }
    _ => { 0 }
  }
}";
    let other = "
fn (pick x) {
  match x {
    3 => { 30 }
    1 => { 10 }
    2 => { 20 }
    _ => { 0 }
  }
}";
    let one = module_of(one);
    let other = module_of(other);
    for x in 0..5 {
        let mut a = State::with_capacity(4, 4);
        let mut b = State::with_capacity(4, 4);
        let left = a.call("pick", &[Value::Num(x)], &one);
        let right = b.call("pick", &[Value::Num(x)], &other);
        assert_eq!(left, right);
        assert_eq!(left, Ok(Value::Num(if x >= 1 && x <= 3 { 10 * x } else { 0 })));
    }
}

#[test]
fn partial_applications_get_distinct_pointers() {
    let source = "
fn (id x) { x }
fn (pair a b) { b }
fn (main) {
  let a = (papp id);
  let b = (papp id);
  (pair a b)
}";
    let module = module_of(source);
    let mut state = State::with_capacity(16, 16);
    assert_eq!(state.run(&module), Ok(Value::Ptr(1)));
    let mut state = State::with_capacity(16, 16);
    let first = state.eval(&papp("id", vec![]), &module).unwrap();
    let second = state.eval(&papp("id", vec![]), &module).unwrap();
    assert_eq!(first, Value::Ptr(0));
    assert_eq!(second, Value::Ptr(1));
    assert_ne!(first, second);
}

#[test]
fn let_binds_in_the_current_frame() {
    let module = module_of("fn (id x) { x }");
    let mut state = State::with_capacity(16, 16);
    let expr = bind(
        "a",
        Expression::Unit(Atom::Lit(2)),
        bind(
            "b",
            Expression::Operate(Operation::Mul, var("a"), Atom::Lit(21)),
            Expression::Unit(var("b")),
        ),
    );
    assert_eq!(state.eval(&expr, &module), Ok(Value::Num(42)));
    assert_eq!(state.retrieve_atom(&var("a")), Ok(Value::Num(2)));
    assert_eq!(state.retrieve_atom(&var("b")), Ok(Value::Num(42)));
}

#[test]
fn semantic_faults_name_what_is_wrong() {
    let module = module_of("fn (id x) { x }");
    let mut state = State::with_capacity(16, 16);
    assert_eq!(
        state.eval(&Expression::Unit(var("y")), &module),
        Err(Fault::UnboundVariable("y".to_string()))
    );
    assert_eq!(
        state.eval(&call("nope", vec![]), &module),
        Err(Fault::UnknownFunction("nope".to_string()))
    );
    assert_eq!(
        state.eval(&call("id", vec![]), &module),
        Err(Fault::ArityMismatch("id".to_string()))
    );
    assert_eq!(
        state.call("id", &[Value::Num(1), Value::Num(2)], &module),
        Err(Fault::ArityMismatch("id".to_string()))
    );
    assert_eq!(
        state.apply(9, &[Value::Num(1)], &module),
        Err(Fault::InvalidPointer(9))
    );
    let expr = bind(
        "n",
        Expression::Unit(Atom::Lit(3)),
        apply("n", vec![Atom::Lit(1)]),
    );
    assert_eq!(
        state.eval(&expr, &module),
        Err(Fault::ExpectedClosure(Value::Num(3)))
    );
    let mut state = State::with_capacity(16, 16);
    let expr = bind(
        "p",
        papp("id", vec![]),
        Expression::Operate(Operation::Add, var("p"), Atom::Lit(1)),
    );
    assert_eq!(
        state.eval(&expr, &module),
        Err(Fault::ExpectedNumber(Value::Ptr(0)))
    );
    let mut state = State::with_capacity(16, 16);
    let expr = bind(
        "p",
        papp("id", vec![]),
        Expression::Match(var("p"), vec![], None),
    );
    assert_eq!(
        state.eval(&expr, &module),
        Err(Fault::ExpectedNumber(Value::Ptr(0)))
    );
}

#[test]
fn closure_record_that_is_already_full_faults() {
    let module = module_of("fn (id x) { x }");
    let mut state = State::with_capacity(16, 16);
    let ptr = state
        .alloc_on_heap(HeapCell::Papp("id".to_string(), vec![Value::Num(1)]))
        .unwrap();
    assert_eq!(
        state.apply(ptr, &[], &module),
        Err(Fault::ArityMismatch("id".to_string()))
    );
    let ptr = state
        .alloc_on_heap(HeapCell::Papp("gone".to_string(), vec![]))
        .unwrap();
    assert_eq!(
        state.apply(ptr, &[Value::Num(1)], &module),
        Err(Fault::UnknownFunction("gone".to_string()))
    );
}

#[test]
fn run_needs_a_main_without_parameters() {
    let module = module_of("fn (id x) { x }");
    let mut state = State::with_capacity(16, 16);
    assert_eq!(
        state.run(&module),
        Err(Fault::UnknownFunction("main".to_string()))
    );
    let module = module_of("fn (main x) { x }");
    assert_eq!(
        state.run(&module),
        Err(Fault::ArityMismatch("main".to_string()))
    );
}

#[test]
fn run_starts_from_an_empty_state() {
    let module = module_of("fn (id x) { x } fn (main) { (papp id) }");
    let mut state = State::with_capacity(16, 16);
    assert_eq!(state.run(&module), Ok(Value::Ptr(0)));
    assert_eq!(state.run(&module), Ok(Value::Ptr(0)));
    assert_eq!(state.retrieve_ptr(1), Err(Fault::InvalidPointer(1)));
}

#[test]
fn arithmetic_wraps_and_division_by_zero_faults() {
    assert_eq!(Operation::Add.run(3, 4), Ok(7));
    assert_eq!(Operation::Add.run(usize::MAX, 2), Ok(1));
    assert_eq!(Operation::Sub.run(7, 4), Ok(3));
    assert_eq!(Operation::Sub.run(0, 1), Ok(usize::MAX));
    assert_eq!(Operation::Mul.run(6, 7), Ok(42));
    assert_eq!(Operation::Mul.run(usize::MAX, 2), Ok(usize::MAX - 1));
    assert_eq!(Operation::Div.run(7, 2), Ok(3));
    assert_eq!(Operation::Mod.run(7, 2), Ok(1));
    assert_eq!(Operation::Div.run(7, 0), Err(Fault::DivisionByZero));
    assert_eq!(Operation::Mod.run(7, 0), Err(Fault::DivisionByZero));
    assert!(!Fault::DivisionByZero.is_resource_exhaustion());
}

#[test]
fn comparisons_yield_one_or_zero() {
    assert_eq!(Operation::Eq.run(3, 3), Ok(1));
    assert_eq!(Operation::Eq.run(3, 4), Ok(0));
    assert_eq!(Operation::Lt.run(3, 4), Ok(1));
    assert_eq!(Operation::Lt.run(4, 4), Ok(0));
    assert_eq!(Operation::Le.run(4, 4), Ok(1));
    assert_eq!(Operation::Le.run(5, 4), Ok(0));
    assert_eq!(Operation::Gt.run(5, 4), Ok(1));
    assert_eq!(Operation::Gt.run(4, 4), Ok(0));
    assert_eq!(Operation::Ge.run(4, 4), Ok(1));
    assert_eq!(Operation::Ge.run(3, 4), Ok(0));
}

#[test]
fn bitwise_operations_and_shifts() {
    assert_eq!(Operation::And.run(0b1100, 0b1010), Ok(0b1000));
    assert_eq!(Operation::Or.run(0b1100, 0b1010), Ok(0b1110));
    assert_eq!(Operation::Xor.run(0b1100, 0b1010), Ok(0b0110));
    assert_eq!(Operation::Sr.run(8, 1), Ok(4));
    assert_eq!(Operation::Sl.run(1, 4), Ok(16));
    let bits = usize::BITS as usize;
    assert_eq!(Operation::Sl.run(1, bits), Ok(1));
    assert_eq!(Operation::Sr.run(8, bits + 1), Ok(4));
    assert_eq!(Operation::Sl.run(usize::MAX, 1), Ok(usize::MAX - 1));
}

#[test]
fn value_accessors_check_the_tag() {
    assert_eq!(Value::Num(3).expect_num(), Ok(3));
    assert_eq!(
        Value::Ptr(3).expect_num(),
        Err(Fault::ExpectedNumber(Value::Ptr(3)))
    );
    assert_eq!(Value::Ptr(3).expect_ptr(), Ok(3));
    assert_eq!(
        Value::Num(3).expect_ptr(),
        Err(Fault::ExpectedClosure(Value::Num(3)))
    );
}

#[test]
fn frame_binds_and_looks_up() {
    let mut frame = Frame::new();
    assert_eq!(
        frame.get("x"),
        Err(Fault::UnboundVariable("x".to_string()))
    );
    frame.insert("x".to_string(), Value::Num(1));
    frame.insert("y".to_string(), Value::Ptr(2));
    assert_eq!(frame.get("x"), Ok(Value::Num(1)));
    assert_eq!(frame.get("y"), Ok(Value::Ptr(2)));
}

#[test]
fn stack_and_arena_refuse_what_exceeds_their_capacity() {
    let mut state = State::with_capacity(1, 1);
    assert_eq!(state.alloc_on_stack(Frame::new()), Ok(()));
    assert_eq!(state.alloc_on_stack(Frame::new()), Err(Fault::StackOverflow));
    assert_eq!(
        state.alloc_on_heap(HeapCell::Papp("f".to_string(), vec![])),
        Ok(0)
    );
    assert_eq!(
        state.alloc_on_heap(HeapCell::Papp("f".to_string(), vec![])),
        Err(Fault::OutOfMemory)
    );
}

#[test]
fn default_capacities() {
    assert_eq!(INIT_HEAP_SIZE, 1 << 24);
    assert_eq!(INIT_STACK_SIZE, 1 << 18);
}

#[test]
fn state_with_the_default_capacities_runs_a_program() {
    let source = format!(
        "{}
fn (main) {{
  let xs = (buildList 10);
  (sumList xs)
}}",
        LISTS
    );
    let module = module_of(&source);
    let mut state = State::new();
    assert_eq!(state.run(&module), Ok(Value::Num(55)));
}
