use stackmach::diag::Diagnostic;
use stackmach::diag::ErrorKind;
use stackmach::diag::Severity;
use stackmach::mach::Mach;
use stackmach::nesting::NestingState;
use stackmach::syntax::Sub;
use stackmach::table::Table;
use stackmach::token::tokenize;
use stackmach::token::Token;
use stackmach::value::Value;

fn cs(s: &str) -> Vec<char> {
    s.chars().collect()
}

fn word(s: &str) -> Token {
    Token::Word(cs(s))
}

fn run(lines: &[&str]) -> Mach {
    let mut m = Mach::new();
    for line in lines {
        m.run_line(&cs(line));
    }
    m
}

fn last_diag(m: &Mach) -> Diagnostic {
    *m.diagnostics().last().expect("no diagnostics")
}

#[test]
fn tokenize_collapses_whitespace() {
    let toks = tokenize(&cs("a b  c"));
    assert_eq!(toks, vec![word("a"), word("b"), word("c")]);
}

#[test]
fn tokenize_empty_line() {
    assert_eq!(tokenize(&cs("")), vec![]);
    assert_eq!(tokenize(&cs("   \t ")), vec![]);
}

#[test]
fn tokenize_brackets_end_words() {
    let toks = tokenize(&cs("[a]b"));
    assert_eq!(
        toks,
        vec![Token::EnterContext, word("a"), Token::ExitContext, word("b")]
    );
}

#[test]
fn tokenize_trailing_word() {
    assert_eq!(tokenize(&cs("  xy")), vec![word("xy")]);
}

#[test]
fn builder_nested_tree() {
    let mut m = Mach::new();
    for t in tokenize(&cs("[ a [ b ] c ]")) {
        m.feed(t);
    }
    let expected = vec![Sub::Tree(vec![
        Sub::Word(cs("a")),
        Sub::Tree(vec![Sub::Word(cs("b"))]),
        Sub::Word(cs("c")),
    ])];
    assert_eq!(*m.top(), expected);
    assert_eq!(m.state(), NestingState::Outside);
}

#[test]
fn balanced_line_returns_outside() {
    let mut m = Mach::new();
    for t in tokenize(&cs("[ a ] [ [ ] ]")) {
        m.feed(t);
    }
    assert_eq!(m.state(), NestingState::Outside);
}

#[test]
fn depth_is_tracked() {
    let mut m = Mach::new();
    m.enter();
    assert_eq!(m.state(), NestingState::Inside(0));
    m.enter();
    assert_eq!(m.state(), NestingState::Inside(1));
    m.exit();
    assert_eq!(m.state(), NestingState::Inside(0));
    m.exit();
    assert_eq!(m.state(), NestingState::Outside);
}

#[test]
fn unmatched_close_poisons() {
    let mut m = Mach::new();
    m.exit();
    assert_eq!(m.state(), NestingState::Invalid);
    assert_eq!(last_diag(&m), Diagnostic::UnbalancedClose);
    m.enter();
    assert_eq!(m.state(), NestingState::Invalid);
    assert_eq!(last_diag(&m), Diagnostic::AlreadyInvalid);
    m.exit();
    assert_eq!(m.state(), NestingState::Invalid);
    assert_eq!(last_diag(&m), Diagnostic::AlreadyInvalid);
}

#[test]
fn words_ignored_while_invalid() {
    let mut m = run(&["]", "5"]);
    assert_eq!(*m.stack(), vec![]);
    assert_eq!(m.state(), NestingState::Invalid);
    m.reset();
    assert_eq!(m.state(), NestingState::Outside);
    m.run_line(&cs("5"));
    assert_eq!(*m.stack(), vec![Value::Num(5)]);
}

#[test]
fn diagnostic_severities() {
    assert_eq!(Diagnostic::EnteredContext(1).severity(), Severity::Trace);
    assert_eq!(Diagnostic::ExitedContext(0).severity(), Severity::Trace);
    assert_eq!(Diagnostic::UnbalancedClose.severity(), Severity::Error);
    assert_eq!(Diagnostic::AlreadyInvalid.severity(), Severity::Error);
    assert_eq!(
        Diagnostic::EvalFailed(ErrorKind::ArityMismatch).severity(),
        Severity::Error
    );
}

#[test]
fn addition() {
    assert_eq!(*run(&["2 3 +"]).stack(), vec![Value::Num(5)]);
}

#[test]
fn subtraction_pops_right_first() {
    assert_eq!(*run(&["7 2 -"]).stack(), vec![Value::Num(5)]);
}

#[test]
fn multiplication() {
    assert_eq!(*run(&["3 4 *"]).stack(), vec![Value::Num(12)]);
}

#[test]
fn division_truncates() {
    assert_eq!(*run(&["9 2 /"]).stack(), vec![Value::Num(4)]);
    assert_eq!(*run(&["-7 2 /"]).stack(), vec![Value::Num(-3)]);
}

#[test]
fn remainder() {
    assert_eq!(*run(&["9 2 %"]).stack(), vec![Value::Num(1)]);
    assert_eq!(*run(&["-7 2 %"]).stack(), vec![Value::Num(-1)]);
}

#[test]
fn addition_wraps() {
    assert_eq!(
        *run(&["9223372036854775807 1 +"]).stack(),
        vec![Value::Num(i64::MIN)]
    );
}

#[test]
fn division_by_zero_consumes_operands() {
    let m = run(&["1 0 /"]);
    assert_eq!(*m.stack(), vec![]);
    assert_eq!(last_diag(&m), Diagnostic::EvalFailed(ErrorKind::DivisionByZero));
}

#[test]
fn modulo_by_zero_consumes_operands() {
    let m = run(&["1 0 %"]);
    assert_eq!(*m.stack(), vec![]);
    assert_eq!(last_diag(&m), Diagnostic::EvalFailed(ErrorKind::ModuloByZero));
}

#[test]
fn error_abandons_rest_of_fragment() {
    let m = run(&["1 0 / 5"]);
    assert_eq!(*m.stack(), vec![]);
    assert_eq!(last_diag(&m), Diagnostic::EvalFailed(ErrorKind::DivisionByZero));
}

#[test]
fn error_does_not_poison_next_line() {
    let m = run(&["1 0 /", "4 4 +"]);
    assert_eq!(*m.stack(), vec![Value::Num(8)]);
}

#[test]
fn arity_mismatch_on_missing_operands() {
    let m = run(&["+"]);
    assert_eq!(last_diag(&m), Diagnostic::EvalFailed(ErrorKind::ArityMismatch));
}

#[test]
fn undefined_word() {
    let m = run(&["nosuchword"]);
    assert_eq!(*m.stack(), vec![]);
    assert_eq!(last_diag(&m), Diagnostic::EvalFailed(ErrorKind::UndefinedWord));
}

#[test]
fn oversized_literal_is_undefined() {
    let m = run(&["99999999999999999999999"]);
    assert_eq!(last_diag(&m), Diagnostic::EvalFailed(ErrorKind::UndefinedWord));
}

#[test]
fn negative_literal() {
    assert_eq!(*run(&["-5"]).stack(), vec![Value::Num(-5)]);
    assert_eq!(
        *run(&["-9223372036854775808"]).stack(),
        vec![Value::Num(i64::MIN)]
    );
}

#[test]
fn tree_children_evaluate_in_order() {
    assert_eq!(*run(&["[ 2 3 + ] 4 *"]).stack(), vec![Value::Num(20)]);
}

#[test]
fn macro_definition_and_call() {
    let m = run(&["fn double [ 2 * ] 5 double"]);
    assert_eq!(*m.stack(), vec![Value::Num(10)]);
}

#[test]
fn macro_redefinition_overwrites() {
    let m = run(&["fn f [ 1 ]", "fn f [ 2 ]", "f"]);
    assert_eq!(*m.stack(), vec![Value::Num(2)]);
}

#[test]
fn macro_without_body_is_arity_mismatch() {
    let m = run(&["fn f"]);
    assert_eq!(last_diag(&m), Diagnostic::EvalFailed(ErrorKind::ArityMismatch));
}

#[test]
fn self_recursive_macro_hits_limit() {
    let m = run(&["fn f [ f ] f"]);
    assert_eq!(last_diag(&m), Diagnostic::EvalFailed(ErrorKind::RecursionLimit));
}

#[test]
fn variable_bind_and_retrieve() {
    let m = run(&["5 $ x", "x x +"]);
    assert_eq!(*m.stack(), vec![Value::Num(10)]);
}

#[test]
fn variable_retrieve_via_dollar_on_empty_stack() {
    let m = run(&["7 $ x", "$ x"]);
    assert_eq!(*m.stack(), vec![Value::Num(7)]);
}

#[test]
fn unbound_variable_is_undefined_name() {
    let m = run(&["$ nowhere"]);
    assert_eq!(last_diag(&m), Diagnostic::EvalFailed(ErrorKind::UndefinedName));
}

#[test]
fn list_preserves_pop_order() {
    let m = run(&["1 2 3 2 @"]);
    assert_eq!(
        *m.stack(),
        vec![
            Value::Num(1),
            Value::List(vec![Value::Num(3), Value::Num(2)]),
        ]
    );
}

#[test]
fn list_with_too_few_items() {
    let m = run(&["1 5 @"]);
    assert_eq!(last_diag(&m), Diagnostic::EvalFailed(ErrorKind::ArityMismatch));
}

#[test]
fn empty_list() {
    let m = run(&["0 @"]);
    assert_eq!(*m.stack(), vec![Value::List(vec![])]);
}

#[test]
fn brackets_span_lines() {
    let m = run(&["[ 1", "2 ]"]);
    assert_eq!(*m.stack(), vec![Value::Num(1), Value::Num(2)]);
}

#[test]
fn lookup_on_undefined_name_fails_without_mutation() {
    let mut t: Table<Value> = Table::new();
    assert_eq!(t.len(), 0);
    match t.lookup(&cs("missing")) {
        Err(k) => assert_eq!(k, ErrorKind::UndefinedName),
        Ok(_) => panic!("lookup of an undefined name succeeded"),
    }
    assert_eq!(t.len(), 0);
    match t.lookup(&cs("missing")) {
        Err(k) => assert_eq!(k, ErrorKind::UndefinedName),
        Ok(_) => panic!("lookup of an undefined name succeeded"),
    }
}

#[test]
fn define_then_lookup() {
    let mut t: Table<Value> = Table::new();
    t.define(cs("x"), Value::Num(3));
    t.define(cs("y"), Value::Num(4));
    t.define(cs("x"), Value::Num(5));
    assert_eq!(t.len(), 2);
    match t.lookup(&cs("x")) {
        Ok(v) => assert_eq!(*v, Value::Num(5)),
        Err(_) => panic!("defined name not found"),
    }
}

#[test]
fn tokenize_unicode_whitespace() {
    let toks = tokenize(&cs("a\u{3000}b\u{2028}c\td"));
    assert_eq!(toks, vec![word("a"), word("b"), word("c"), word("d")]);
}

#[test]
fn macro_calling_macro() {
    let m = run(&["fn inc [ 1 + ]", "fn inc2 [ inc inc ]", "5 inc2"]);
    assert_eq!(*m.stack(), vec![Value::Num(7)]);
}

#[test]
fn macro_defined_inside_context() {
    let m = run(&["[ fn g [ 3 ] ] g"]);
    assert_eq!(*m.stack(), vec![Value::Num(3)]);
}

#[test]
fn arithmetic_on_list_is_arity_mismatch() {
    let m = run(&["0 @ 1 +"]);
    assert_eq!(last_diag(&m), Diagnostic::EvalFailed(ErrorKind::ArityMismatch));
}

#[test]
fn list_count_must_be_numeric() {
    let m = run(&["1 0 @ @"]);
    assert_eq!(last_diag(&m), Diagnostic::EvalFailed(ErrorKind::ArityMismatch));
}

#[test]
fn negative_list_count_is_arity_mismatch() {
    let m = run(&["1 -1 @"]);
    assert_eq!(last_diag(&m), Diagnostic::EvalFailed(ErrorKind::ArityMismatch));
}

#[test]
fn builtins_shadow_macros() {
    let m = run(&["fn j [ 9 ] 2 3 + j"]);
    assert_eq!(*m.stack(), vec![Value::Num(5), Value::Num(9)]);
}

#[test]
fn enter_and_exit_leave_trace_diagnostics() {
    let mut m = Mach::new();
    m.enter();
    m.enter();
    m.exit();
    m.exit();
    let diags = m.take_diagnostics();
    assert_eq!(
        diags,
        vec![
            Diagnostic::EnteredContext(1),
            Diagnostic::EnteredContext(2),
            Diagnostic::ExitedContext(1),
            Diagnostic::ExitedContext(0),
        ]
    );
    assert_eq!(*m.diagnostics(), vec![]);
}
