use rash::lexer::{Token, TokenType};
use rash::parsing::parser::{parse, BlockType, Expr, Literal, Operator, ParseError};
use rash::runtime::runtime::{get_from_scope, run, Host};

fn tk(kind: TokenType, s: &str) -> Token {
    Token::new(kind, s.to_string())
}

fn nl() -> Token {
    tk(TokenType::Newline, "\n")
}

/// Parses and runs a token program with empty initial state, returning
/// the produced output and the final scopes.
fn run_tokens(tokens: Vec<Token>) -> (String, Vec<Vec<(String, rash::parsing::parser::DataType)>>) {
    let tree = parse(&tokens).expect("parse");
    let mut scopes = vec![Vec::new()];
    let mut functions = Vec::new();
    let mut host = Host { output: String::new(), replies: Vec::new(), used: 0 };
    run(&tree, &mut scopes, &mut functions, &mut host, 1_000_000).expect("run");
    (host.output, scopes)
}

fn int_in_scope(scopes: &Vec<Vec<(String, rash::parsing::parser::DataType)>>, name: &str) -> i32 {
    let d = get_from_scope(scopes, &name.to_string()).expect("lookup");
    assert!(matches!(d.kind, Literal::Int));
    d.store.integer.unwrap()
}

#[test]
fn operators_fold_left_to_right() {
    // x = 2 + 3 * 4;  folds as (2 + 3) * 4 == 20, not 14
    let tokens = vec![
        tk(TokenType::Name, "x"),
        tk(TokenType::Equals, "="),
        tk(TokenType::Number, "2"),
        tk(TokenType::Plus, "+"),
        tk(TokenType::Number, "3"),
        tk(TokenType::Times, "*"),
        tk(TokenType::Number, "4"),
        tk(TokenType::Semicolon, ";"),
        nl(),
    ];
    let (_, scopes) = run_tokens(tokens);
    assert_eq!(int_in_scope(&scopes, "x"), 20);
}

#[test]
fn folding_builds_left_nested_tree() {
    // a + b * c parses as Binary(*, Binary(+, a, b), c)
    let tokens = vec![
        tk(TokenType::Name, "a"),
        tk(TokenType::Plus, "+"),
        tk(TokenType::Name, "b"),
        tk(TokenType::Times, "*"),
        tk(TokenType::Name, "c"),
        tk(TokenType::Semicolon, ";"),
        nl(),
    ];
    let tree = parse(&tokens).expect("parse");
    assert_eq!(tree.len(), 1);
    match &tree[0] {
        Expr::Binary(outer) => {
            assert!(matches!(outer.operator, Operator::Times));
            match &*outer.left {
                Expr::Binary(inner) => {
                    assert!(matches!(inner.operator, Operator::Plus));
                }
                other => panic!("left is not the + fold: {:?}", other),
            }
            assert!(matches!(&*outer.right, Expr::Literal(_)));
        }
        other => panic!("not a binary fold: {:?}", other),
    }
}

#[test]
fn format_string_interpolates() {
    // x = 5; print(f"val=$x");  outputs val=5
    let tokens = vec![
        tk(TokenType::Name, "x"),
        tk(TokenType::Equals, "="),
        tk(TokenType::Number, "5"),
        tk(TokenType::Semicolon, ";"),
        nl(),
        tk(TokenType::Print, "print"),
        tk(TokenType::OpeningBracket, "("),
        tk(TokenType::FormattedQuote, "f\""),
        tk(TokenType::Content, "val="),
        tk(TokenType::Dollar, "$"),
        tk(TokenType::Content, "x"),
        tk(TokenType::DoubleQuote, "\""),
        tk(TokenType::ClosingBracket, ")"),
        tk(TokenType::Semicolon, ";"),
        nl(),
    ];
    let (out, _) = run_tokens(tokens);
    assert_eq!(out, "val=5\n");
}

#[test]
fn chain_runs_exactly_the_else_arm() {
    // x = 0; if false { x = 1; } else if false { x = 2; } else { x = 3; }
    let mut tokens = vec![
        tk(TokenType::Name, "x"),
        tk(TokenType::Equals, "="),
        tk(TokenType::Number, "0"),
        tk(TokenType::Semicolon, ";"),
        nl(),
    ];
    tokens.extend(vec![
        tk(TokenType::If, "if"),
        tk(TokenType::Bool, "false"),
        tk(TokenType::OpeningBrace, "{"),
        tk(TokenType::Name, "x"),
        tk(TokenType::Equals, "="),
        tk(TokenType::Number, "1"),
        tk(TokenType::Semicolon, ";"),
        tk(TokenType::ClosingBrace, "}"),
        nl(),
        tk(TokenType::ElseIf, "else if"),
        tk(TokenType::Bool, "false"),
        tk(TokenType::OpeningBrace, "{"),
        tk(TokenType::Name, "x"),
        tk(TokenType::Equals, "="),
        tk(TokenType::Number, "2"),
        tk(TokenType::Semicolon, ";"),
        tk(TokenType::ClosingBrace, "}"),
        nl(),
        tk(TokenType::Else, "else"),
        tk(TokenType::OpeningBrace, "{"),
        tk(TokenType::Name, "x"),
        tk(TokenType::Equals, "="),
        tk(TokenType::Number, "3"),
        tk(TokenType::Semicolon, ";"),
        tk(TokenType::ClosingBrace, "}"),
        nl(),
    ]);
    let (_, scopes) = run_tokens(tokens);
    assert_eq!(int_in_scope(&scopes, "x"), 3);
}

#[test]
fn chain_first_true_arm_wins() {
    // x = 0; if true { x = 1; } else { x = 9; }
    let tokens = vec![
        tk(TokenType::Name, "x"),
        tk(TokenType::Equals, "="),
        tk(TokenType::Number, "0"),
        tk(TokenType::Semicolon, ";"),
        nl(),
        tk(TokenType::If, "if"),
        tk(TokenType::Bool, "true"),
        tk(TokenType::OpeningBrace, "{"),
        tk(TokenType::Name, "x"),
        tk(TokenType::Equals, "="),
        tk(TokenType::Number, "1"),
        tk(TokenType::Semicolon, ";"),
        tk(TokenType::ClosingBrace, "}"),
        nl(),
        tk(TokenType::Else, "else"),
        tk(TokenType::OpeningBrace, "{"),
        tk(TokenType::Name, "x"),
        tk(TokenType::Equals, "="),
        tk(TokenType::Number, "9"),
        tk(TokenType::Semicolon, ";"),
        tk(TokenType::ClosingBrace, "}"),
        nl(),
    ];
    let (_, scopes) = run_tokens(tokens);
    assert_eq!(int_in_scope(&scopes, "x"), 1);
}

#[test]
fn for_loop_runs_body_n_times() {
    // k = 0; for (i = 0; i < 5; ++i) { k = k + 1; } print(k);  outputs 5
    let tokens = vec![
        tk(TokenType::Name, "k"),
        tk(TokenType::Equals, "="),
        tk(TokenType::Number, "0"),
        tk(TokenType::Semicolon, ";"),
        nl(),
        tk(TokenType::For, "for"),
        tk(TokenType::OpeningBracket, "("),
        tk(TokenType::Name, "i"),
        tk(TokenType::Equals, "="),
        tk(TokenType::Number, "0"),
        tk(TokenType::Semicolon, ";"),
        tk(TokenType::Name, "i"),
        tk(TokenType::LesserThan, "<"),
        tk(TokenType::Number, "5"),
        tk(TokenType::Semicolon, ";"),
        tk(TokenType::PlusPlus, "++"),
        tk(TokenType::Name, "i"),
        tk(TokenType::ClosingBracket, ")"),
        tk(TokenType::OpeningBrace, "{"),
        tk(TokenType::Name, "k"),
        tk(TokenType::Equals, "="),
        tk(TokenType::Name, "k"),
        tk(TokenType::Plus, "+"),
        tk(TokenType::Number, "1"),
        tk(TokenType::Semicolon, ";"),
        tk(TokenType::ClosingBrace, "}"),
        nl(),
        tk(TokenType::Print, "print"),
        tk(TokenType::OpeningBracket, "("),
        tk(TokenType::Name, "k"),
        tk(TokenType::ClosingBracket, ")"),
        tk(TokenType::Semicolon, ";"),
        nl(),
    ];
    let (out, _) = run_tokens(tokens);
    assert_eq!(out, "5\n");
}

#[test]
fn for_loop_with_negative_bound_never_runs() {
    // k = 0; for (i = 0; i < -3; ++i) { k = k + 1; } print(k);  outputs 0
    let tokens = vec![
        tk(TokenType::Name, "k"),
        tk(TokenType::Equals, "="),
        tk(TokenType::Number, "0"),
        tk(TokenType::Semicolon, ";"),
        nl(),
        tk(TokenType::For, "for"),
        tk(TokenType::OpeningBracket, "("),
        tk(TokenType::Name, "i"),
        tk(TokenType::Equals, "="),
        tk(TokenType::Number, "0"),
        tk(TokenType::Semicolon, ";"),
        tk(TokenType::Name, "i"),
        tk(TokenType::LesserThan, "<"),
        tk(TokenType::Number, "-3"),
        tk(TokenType::Semicolon, ";"),
        tk(TokenType::PlusPlus, "++"),
        tk(TokenType::Name, "i"),
        tk(TokenType::ClosingBracket, ")"),
        tk(TokenType::OpeningBrace, "{"),
        tk(TokenType::Name, "k"),
        tk(TokenType::Equals, "="),
        tk(TokenType::Name, "k"),
        tk(TokenType::Plus, "+"),
        tk(TokenType::Number, "1"),
        tk(TokenType::Semicolon, ";"),
        tk(TokenType::ClosingBrace, "}"),
        nl(),
        tk(TokenType::Print, "print"),
        tk(TokenType::OpeningBracket, "("),
        tk(TokenType::Name, "k"),
        tk(TokenType::ClosingBracket, ")"),
        tk(TokenType::Semicolon, ";"),
        nl(),
    ];
    let (out, _) = run_tokens(tokens);
    assert_eq!(out, "0\n");
}

#[test]
fn function_definition_call_and_return() {
    // fn add2(a, b) { return a + b; } print(add2(2, 3));  outputs 5
    let tokens = vec![
        tk(TokenType::Function, "fn"),
        tk(TokenType::Name, "add2"),
        tk(TokenType::OpeningBracket, "("),
        tk(TokenType::Name, "a"),
        tk(TokenType::Comma, ","),
        tk(TokenType::Name, "b"),
        tk(TokenType::ClosingBracket, ")"),
        tk(TokenType::OpeningBrace, "{"),
        tk(TokenType::Return, "return"),
        tk(TokenType::Name, "a"),
        tk(TokenType::Plus, "+"),
        tk(TokenType::Name, "b"),
        tk(TokenType::Semicolon, ";"),
        tk(TokenType::ClosingBrace, "}"),
        nl(),
        tk(TokenType::Print, "print"),
        tk(TokenType::OpeningBracket, "("),
        tk(TokenType::Name, "add2"),
        tk(TokenType::OpeningBracket, "("),
        tk(TokenType::Number, "2"),
        tk(TokenType::Comma, ","),
        tk(TokenType::Number, "3"),
        tk(TokenType::ClosingBracket, ")"),
        tk(TokenType::ClosingBracket, ")"),
        tk(TokenType::Semicolon, ";"),
        nl(),
    ];
    let (out, _) = run_tokens(tokens);
    assert_eq!(out, "5\n");
}

#[test]
fn array_literal_indexing_and_print() {
    // a = [10; 20; 30]; print(a); print(a[-1]);
    let tokens = vec![
        tk(TokenType::Name, "a"),
        tk(TokenType::Equals, "="),
        tk(TokenType::OpeningSquareBracket, "["),
        tk(TokenType::Number, "10"),
        tk(TokenType::Semicolon, ";"),
        tk(TokenType::Number, "20"),
        tk(TokenType::Semicolon, ";"),
        tk(TokenType::Number, "30"),
        tk(TokenType::ClosingSquareBracket, "]"),
        tk(TokenType::Semicolon, ";"),
        nl(),
        tk(TokenType::Print, "print"),
        tk(TokenType::OpeningBracket, "("),
        tk(TokenType::Name, "a"),
        tk(TokenType::ClosingBracket, ")"),
        tk(TokenType::Semicolon, ";"),
        nl(),
        tk(TokenType::Print, "print"),
        tk(TokenType::OpeningBracket, "("),
        tk(TokenType::Name, "a"),
        tk(TokenType::OpeningSquareBracket, "["),
        tk(TokenType::Number, "-1"),
        tk(TokenType::ClosingSquareBracket, "]"),
        tk(TokenType::ClosingBracket, ")"),
        tk(TokenType::Semicolon, ";"),
        nl(),
    ];
    let (out, _) = run_tokens(tokens);
    assert_eq!(out, "[ 10; 20; 30; ]\n30\n");
}

#[test]
fn unterminated_string_is_a_parse_error() {
    let tokens = vec![
        tk(TokenType::SingleQuote, "'"),
        tk(TokenType::Content, "abc"),
        nl(),
    ];
    assert_eq!(parse(&tokens).unwrap_err(), ParseError::UnexpectedEof);
}

#[test]
fn if_with_two_conditions_is_a_parse_error() {
    // if 1 2 { } has two condition expressions
    let tokens = vec![
        tk(TokenType::If, "if"),
        tk(TokenType::Number, "1"),
        tk(TokenType::Number, "2"),
        tk(TokenType::OpeningBrace, "{"),
        tk(TokenType::ClosingBrace, "}"),
        nl(),
    ];
    assert_eq!(parse(&tokens).unwrap_err(), ParseError::BadConditionCount);
}

#[test]
fn blocks_parse_into_block_nodes() {
    let tokens = vec![
        tk(TokenType::Return, "return"),
        tk(TokenType::Number, "7"),
        tk(TokenType::Semicolon, ";"),
        nl(),
    ];
    let tree = parse(&tokens).expect("parse");
    assert_eq!(tree.len(), 1);
    match &tree[0] {
        Expr::Block(b) => {
            assert!(matches!(b.kind, BlockType::Return));
            assert_eq!(b.block.len(), 1);
        }
        other => panic!("not a block: {:?}", other),
    }
}
