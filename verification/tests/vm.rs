use evalrus::compiler::compile;
use evalrus::error::ErrorKind;
use evalrus::memory::Memory;
use evalrus::parser::parse;
use evalrus::printer::print;
use evalrus::taggedptr::TaggedPtr;
use evalrus::vm::Thread;

fn eval(mem: &mut Memory, thread: &mut Thread, source: &str) -> Result<String, ErrorKind> {
    let ast = parse(mem, source).unwrap();
    let function = match compile(mem, ast).unwrap() {
        TaggedPtr::Function(i) => i,
        _ => panic!("compile gives a function"),
    };
    match thread.quick_vm_eval(mem, function) {
        Ok(value) => Ok(print(mem, value)),
        Err(e) => Err(match e.error_kind() {
            ErrorKind::EvalError(s) => ErrorKind::EvalError(s.clone()),
            ErrorKind::BoundsError => ErrorKind::BoundsError,
            _ => panic!("unexpected error kind"),
        }),
    }
}

fn run(source: &str) -> Result<String, ErrorKind> {
    let mut mem = Memory::new();
    let mut thread = Thread::allocate(&mut mem).unwrap();
    eval(&mut mem, &mut thread, source)
}

#[test]
fn vm_quote_car_cdr_cons() {
    assert_eq!(run("(quote a)"), Ok(String::from("a")));
    assert_eq!(run("(car (quote (a b)))"), Ok(String::from("a")));
    assert_eq!(run("(cdr (quote (a b)))"), Ok(String::from("(b)")));
    assert_eq!(run("(car nil)"), Ok(String::from("()")));
    assert_eq!(run("(cons (quote a) (quote b))"), Ok(String::from("(a . b)")));
}

#[test]
fn vm_predicates() {
    assert_eq!(run("(atom? (quote a))"), Ok(String::from("true")));
    assert_eq!(run("(atom? (quote (a)))"), Ok(String::from("()")));
    assert_eq!(run("(nil? nil)"), Ok(String::from("true")));
    assert_eq!(run("(nil? true)"), Ok(String::from("()")));
    assert_eq!(run("(is? (quote a) (quote a))"), Ok(String::from("true")));
    assert_eq!(run("(is? (quote a) (quote b))"), Ok(String::from("()")));
}

#[test]
fn vm_cond_picks_first_true_clause() {
    assert_eq!(run("(cond nil (quote a) true (quote b))"), Ok(String::from("b")));
    assert_eq!(run("(cond (quote true) (quote yes))"), Ok(String::from("yes")));
    assert_eq!(run("(cond (quote x) (quote a))"), Ok(String::from("()")));
    assert_eq!(run("(cond (quote x) (quote a) (quote y) (quote b))"), Ok(String::from("()")));
}

#[test]
fn vm_globals_persist_in_a_thread() {
    let mut mem = Memory::new();
    let mut thread = Thread::allocate(&mut mem).unwrap();
    assert_eq!(eval(&mut mem, &mut thread, "(set (quote w) (quote v))"), Ok(String::from("w")));
    assert_eq!(eval(&mut mem, &mut thread, "v"), Ok(String::from("w")));
    assert_eq!(
        eval(&mut mem, &mut thread, "(def f () (quote x))"),
        Ok(String::from("(Function f ())"))
    );
    assert_eq!(eval(&mut mem, &mut thread, "(f)"), Ok(String::from("x")));
}

#[test]
fn vm_too_few_arguments_give_a_partial() {
    let mut mem = Memory::new();
    let mut thread = Thread::allocate(&mut mem).unwrap();
    eval(&mut mem, &mut thread, "(def two (a b) (quote z))").unwrap();
    assert_eq!(eval(&mut mem, &mut thread, "(two)"), Ok(String::from("(Partial two (a b))")));
}

#[test]
fn vm_unbound_symbol() {
    assert_eq!(
        run("(g)"),
        Err(ErrorKind::EvalError(String::from("Symbol g is not bound to a value")))
    );
}

#[test]
fn vm_error_traceback() {
    let mut mem = Memory::new();
    let mut thread = Thread::allocate(&mut mem).unwrap();
    eval(&mut mem, &mut thread, "(def h () (car (quote a)))").unwrap();
    assert_eq!(
        eval(&mut mem, &mut thread, "(h)"),
        Err(ErrorKind::EvalError(String::from("Parameter to FirstOfPair is not a list")))
    );
    assert_eq!(
        *thread.traceback(),
        vec![String::from("Error traceback:"), String::from("  in (Function h ())")]
    );
    // the thread was unwound and runs again
    assert_eq!(eval(&mut mem, &mut thread, "(quote ok)"), Ok(String::from("ok")));
}

#[test]
fn vm_calling_a_symbol_value() {
    let mut mem = Memory::new();
    let mut thread = Thread::allocate(&mut mem).unwrap();
    eval(&mut mem, &mut thread, "(set (quote t) (quote s))").unwrap();
    assert_eq!(
        eval(&mut mem, &mut thread, "(s)"),
        Err(ErrorKind::EvalError(String::from("Type is not callable")))
    );
}

#[test]
fn vm_runs_code_longer_than_one_stream_to_its_end() {
    let mut source = String::from("(cond");
    for _ in 0..700 {
        source.push_str(" nil (quote a)");
    }
    source.push_str(" true (quote x))");
    assert_eq!(run(&source), Ok(String::from("x")));
}
