use rash::parsing::parser::{Block, BlockType, DataStore, DataType, Definition, Expr, Literal};
use rash::runtime::functions::{run_delete, run_len, run_pop, run_push};
use rash::runtime::operations::{add, divide, equals, index, multiply, subtract};
use rash::runtime::runtime::{get_from_scope, run, set_into_scope, Host};
use rash::runtime::values::{int_to_string, string_to_int, RunError};

fn mkint(n: i32) -> DataType {
    DataType { value: String::new(), kind: Literal::Int, store: DataStore::new(Some(n), None) }
}

fn sval(s: &str) -> DataType {
    DataType { value: s.to_string(), kind: Literal::String, store: DataStore::new(None, None) }
}

fn var(name: &str) -> DataType {
    DataType { value: name.to_string(), kind: Literal::Variable, store: DataStore::new(None, None) }
}

fn arr(items: Vec<DataType>) -> DataType {
    let es: Vec<Expr> = items.into_iter().map(Expr::Literal).collect();
    DataType {
        value: String::new(),
        kind: Literal::Array,
        store: DataStore { integer: None, boolean: None, array: Some(es) },
    }
}

fn int_of(d: &DataType) -> i32 {
    assert!(matches!(d.kind, Literal::Int));
    d.store.integer.unwrap()
}

#[test]
fn add_sums_integers() {
    let r = add(mkint(2), mkint(3)).unwrap();
    assert_eq!(int_of(&r), 5);
}

#[test]
fn add_concatenates_strings() {
    let r = add(sval("ab"), sval("cd")).unwrap();
    assert_eq!(r.value, "abcd");
}

#[test]
fn add_mismatch_fails() {
    assert_eq!(add(mkint(1), sval("x")).unwrap_err(), RunError::TypeMismatch);
}

#[test]
fn subtract_and_multiply() {
    assert_eq!(int_of(&subtract(mkint(7), mkint(9)).unwrap()), -2);
    assert_eq!(int_of(&multiply(mkint(6), mkint(7)).unwrap()), 42);
}

#[test]
fn divide_truncates_toward_zero() {
    assert_eq!(int_of(&divide(mkint(7), mkint(2)).unwrap()), 3);
    assert_eq!(int_of(&divide(mkint(-7), mkint(2)).unwrap()), -3);
}

#[test]
fn divide_by_zero_is_reported() {
    assert_eq!(divide(mkint(1), mkint(0)).unwrap_err(), RunError::DivisionByZero);
}

#[test]
fn equals_compares_strings() {
    let r = equals(sval("a"), sval("a")).unwrap();
    assert_eq!(r.store.boolean, Some(true));
}

#[test]
fn negative_index_counts_from_end() {
    let a = arr(vec![mkint(10), mkint(20), mkint(30)]);
    let r = index(a, mkint(-1)).unwrap();
    assert_eq!(int_of(&r), 30);
}

#[test]
fn index_out_of_bounds_fails() {
    let a = arr(vec![mkint(10), mkint(20), mkint(30)]);
    assert_eq!(index(a, mkint(-4)).unwrap_err(), RunError::TypeMismatch);
}

#[test]
fn array_builtins() {
    let a = arr(vec![mkint(1), mkint(2)]);
    let pushed = run_push(vec![a, mkint(3)]).unwrap();
    let len = run_len(vec![pushed.clone()]).unwrap();
    assert_eq!(int_of(&len), 3);
    let popped = run_pop(vec![pushed]).unwrap();
    assert_eq!(int_of(&run_len(vec![popped.clone()]).unwrap()), 2);
    let deleted = run_delete(vec![popped, mkint(0)]).unwrap();
    assert_eq!(int_of(&run_len(vec![deleted]).unwrap()), 1);
}

#[test]
fn int_text_round_trip() {
    assert_eq!(int_to_string(-123), "-123");
    assert_eq!(int_to_string(0), "0");
    assert_eq!(string_to_int("2147483647"), Some(2147483647));
    assert_eq!(string_to_int("-2147483648"), Some(-2147483648));
    assert_eq!(string_to_int("2147483648"), None);
    assert_eq!(string_to_int("12x"), None);
}

#[test]
fn assignment_updates_scope() {
    // x = 5; x = 6;  -- the scope ends with the last assignment
    let assign = |n: i32| {
        Expr::Binary(rash::parsing::parser::BinaryExpr {
            operator: rash::parsing::parser::Operator::Equals,
            left: Box::new(Expr::Literal(var("x"))),
            right: Box::new(Expr::Literal(mkint(n))),
        })
    };
    let tree = vec![assign(5), assign(6)];
    let mut scopes = vec![Vec::new()];
    let mut functions = Vec::new();
    let mut host = Host::new();
    let r = run(&tree, &mut scopes, &mut functions, &mut host, 1000).unwrap();
    assert!(r.is_none());
    let x = get_from_scope(&scopes, &"x".to_string()).unwrap();
    assert_eq!(int_of(&x), 6);
}

#[test]
fn division_by_zero_aborts_run() {
    // prmkint(1/0); fails with DivisionByZero, not a crash
    let div = Expr::Binary(rash::parsing::parser::BinaryExpr {
        operator: rash::parsing::parser::Operator::Divide,
        left: Box::new(Expr::Literal(mkint(1))),
        right: Box::new(Expr::Literal(mkint(0))),
    });
    let pr = Expr::Function(rash::parsing::parser::Function {
        kind: rash::parsing::parser::FunctionType::Print,
        arguments: vec![div],
        name: "print".to_string(),
    });
    let tree = vec![pr];
    let mut scopes = vec![Vec::new()];
    let mut functions = Vec::new();
    let mut host = Host::new();
    let e = run(&tree, &mut scopes, &mut functions, &mut host, 1000).unwrap_err();
    assert_eq!(e, RunError::DivisionByZero);
}

#[test]
fn user_function_returns_sum() {
    // fn add2(a, b) { return a + b; }  prmkint(add2(2, 3)); outputs 5
    let body = Expr::Block(Block {
        kind: BlockType::Return,
        conditions: Vec::new(),
        block: vec![Expr::Binary(rash::parsing::parser::BinaryExpr {
            operator: rash::parsing::parser::Operator::Plus,
            left: Box::new(Expr::Literal(var("a"))),
            right: Box::new(Expr::Literal(var("b"))),
        })],
    });
    let def = Expr::Definition(Definition {
        name: "add2".to_string(),
        arguments: vec!["a".to_string(), "b".to_string()],
        block: vec![body],
    });
    let call = Expr::Function(rash::parsing::parser::Function {
        kind: rash::parsing::parser::FunctionType::Defined,
        arguments: vec![Expr::Literal(mkint(2)), Expr::Literal(mkint(3))],
        name: "add2".to_string(),
    });
    let pr = Expr::Function(rash::parsing::parser::Function {
        kind: rash::parsing::parser::FunctionType::Print,
        arguments: vec![call.clone()],
        name: "print".to_string(),
    });
    let tree = vec![def, pr];
    let mut scopes = vec![Vec::new()];
    let mut functions = Vec::new();
    let mut host = Host::new();
    run(&tree, &mut scopes, &mut functions, &mut host, 100000).unwrap();
    assert_eq!(host.output, "5\n");
    // calling with one argument fails with ArityMismatch
    let bad = Expr::Function(rash::parsing::parser::Function {
        kind: rash::parsing::parser::FunctionType::Defined,
        arguments: vec![Expr::Literal(mkint(2))],
        name: "add2".to_string(),
    });
    let mut scopes2 = vec![Vec::new()];
    let mut host2 = Host::new();
    let e = run(&vec![bad], &mut scopes2, &mut functions, &mut host2, 100000).unwrap_err();
    assert_eq!(e, RunError::ArityMismatch);
}
