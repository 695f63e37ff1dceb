use minlang::lexer::{Lexer, Token, TokenType};
use minlang::parser::{
    string_to_variable_type, token_as_constant_node, token_type_to_variable_type, ConstValue, Node,
    ParseError, ParseErrorKind, Parser, VariableType,
};

fn parse(s: &str) -> Result<Node, ParseError> {
    Parser::parse_tokens(Lexer::new().lex_text(s).expect("tokenizes"))
}

fn function_names(n: &Node) -> Vec<String> {
    match n {
        Node::Program { body } => body
            .iter()
            .map(|f| match &**f {
                Node::Function { name, .. } => name.clone(),
                _ => panic!("not a function"),
            })
            .collect(),
        _ => panic!("not a program"),
    }
}

#[test]
fn one_unclosed_scope_is_reported() {
    let e = parse("function main() {\n  return 1;\n").unwrap_err();
    assert_eq!(e.kind, ParseErrorKind::UnclosedScopes { count: 1 });
    assert!(e.message().starts_with("'Syntax Error: Unclosed Scopes, 1 scopes unclosed' at line"));
}

#[test]
fn balanced_input_yields_declared_functions_in_order() {
    let n = parse("function a() {}\nfunction b(int x, bool y) -> int { return x; }\nfunction c() { }").unwrap();
    assert_eq!(function_names(&n), vec!["a", "b", "c"]);
}

#[test]
fn declaration_becomes_an_assignment() {
    let n = parse("function main() -> int { int x <- 41; return x; }").unwrap();
    let expected = Node::Program {
        body: vec![Box::new(Node::Function {
            name: "main".to_string(),
            return_type: VariableType::Integer,
            args: vec![],
            body: vec![
                Box::new(Node::Assign {
                    name: "x".to_string(),
                    var_type: VariableType::Integer,
                    value: Box::new(Node::Expr {
                        value: Box::new(Node::Const { value_type: ConstValue::Integer { value: 41 } }),
                    }),
                }),
                Box::new(Node::Return {
                    value: Box::new(Node::Expr {
                        value: Box::new(Node::VariableReference { name: "x".to_string() }),
                    }),
                }),
            ],
        })],
    };
    assert_eq!(n, expected);
}

#[test]
fn parameters_and_default_return_type() {
    let n = parse("function f(int a, string b) { g(a, \"s\", 3); }").unwrap();
    match n {
        Node::Program { body } => match &*body[0] {
            Node::Function { return_type, args, body, .. } => {
                assert_eq!(*return_type, VariableType::String);
                assert_eq!(
                    args,
                    &vec![
                        Box::new(Node::Assign { name: "a".to_string(), var_type: VariableType::Integer, value: Box::new(Node::Blank) }),
                        Box::new(Node::Assign { name: "b".to_string(), var_type: VariableType::String, value: Box::new(Node::Blank) }),
                    ]
                );
                match &*body[0] {
                    Node::FunctionCall { name, args } => {
                        assert_eq!(name, "g");
                        assert_eq!(args.len(), 3);
                    }
                    _ => panic!("expected a call"),
                }
            }
            _ => panic!("expected a function"),
        },
        _ => panic!("expected a program"),
    }
}

#[test]
fn closing_brace_without_scope_is_a_syntax_error() {
    assert_eq!(parse("}").unwrap_err().kind, ParseErrorKind::Syntax);
}

#[test]
fn assignment_outside_function_is_a_semantics_error() {
    assert_eq!(parse("int x <- 1;").unwrap_err().kind, ParseErrorKind::Semantics);
}

#[test]
fn bare_identifier_is_undefined() {
    let e = parse("function f() { foo; }").unwrap_err();
    assert_eq!(e.kind, ParseErrorKind::Undefined);
    assert_eq!(e.description, "Unknown 'foo'");
    assert_eq!((e.line, e.column), (1, 16));
}

#[test]
fn invalid_return_type_is_a_type_error() {
    assert_eq!(parse("function f() -> char { }").unwrap_err().kind, ParseErrorKind::Type);
}

#[test]
fn missing_body_brace_is_an_expectation_error() {
    assert_eq!(parse("function f() return").unwrap_err().kind, ParseErrorKind::Expectation);
}

#[test]
fn unexpected_token_in_value() {
    assert_eq!(parse("function f() { return ( ; }").unwrap_err().kind, ParseErrorKind::Unexpected);
}

#[test]
fn compound_value_is_unsupported() {
    assert_eq!(parse("function f() { int x <- 1 + 2; }").unwrap_err().kind, ParseErrorKind::Unsupported);
}

#[test]
fn type_names() {
    assert_eq!(string_to_variable_type("int"), VariableType::Integer);
    assert_eq!(string_to_variable_type("string"), VariableType::String);
    assert_eq!(string_to_variable_type("float"), VariableType::FloatingPoint);
    assert_eq!(string_to_variable_type("bool"), VariableType::Boolean);
    assert_eq!(token_type_to_variable_type(TokenType::Boolean), VariableType::Boolean);
    assert_eq!(token_type_to_variable_type(TokenType::String), VariableType::String);
    assert_eq!(token_type_to_variable_type(TokenType::Integer), VariableType::Integer);
    assert_eq!(token_type_to_variable_type(TokenType::FloatingPoint), VariableType::FloatingPoint);
}

fn tok(t: TokenType, v: &str) -> Token {
    Token { token_type: t, value: v.to_string(), x: 1, y: 1 }
}

#[test]
fn constant_nodes() {
    assert_eq!(
        token_as_constant_node(tok(TokenType::Integer, "170141183460469231731687303715884105727")),
        Some(Node::Const { value_type: ConstValue::Integer { value: i128::MAX } })
    );
    assert_eq!(token_as_constant_node(tok(TokenType::Integer, "170141183460469231731687303715884105728")), None);
    assert_eq!(
        token_as_constant_node(tok(TokenType::Boolean, "false")),
        Some(Node::Const { value_type: ConstValue::Boolean { value: false } })
    );
    assert_eq!(
        token_as_constant_node(tok(TokenType::String, "hi")),
        Some(Node::Const { value_type: ConstValue::String { value: "hi".to_string() } })
    );
    assert_eq!(
        token_as_constant_node(tok(TokenType::FloatingPoint, "2.5")),
        Some(Node::Const { value_type: ConstValue::FloatingPoint { value: "2.5".to_string() } })
    );
    assert_eq!(token_as_constant_node(tok(TokenType::Identifier, "x")), None);
    assert_eq!(
        token_as_constant_node(tok(TokenType::Integer, "-5")),
        Some(Node::Const { value_type: ConstValue::Integer { value: -5 } })
    );
    assert_eq!(
        token_as_constant_node(tok(TokenType::Integer, "+12")),
        Some(Node::Const { value_type: ConstValue::Integer { value: 12 } })
    );
    assert_eq!(
        token_as_constant_node(tok(TokenType::Integer, "-170141183460469231731687303715884105728")),
        Some(Node::Const { value_type: ConstValue::Integer { value: i128::MIN } })
    );
    assert_eq!(token_as_constant_node(tok(TokenType::Integer, "-")), None);
    assert_eq!(token_as_constant_node(tok(TokenType::Integer, "1-2")), None);
    assert_eq!(token_as_constant_node(tok(TokenType::Boolean, "yes")), None);
}

#[test]
fn trailing_comma_in_call_is_refused() {
    assert_eq!(parse("function f() { g(1,); }").unwrap_err().kind, ParseErrorKind::Unexpected);
}

#[test]
fn one_statement_per_end_of_line() {
    let n = parse("function f() { int a <- 1; g(a); return a; }\nfunction h() { return 2; }").unwrap();
    match n {
        Node::Program { body } => {
            let counts: Vec<usize> = body
                .iter()
                .map(|f| match &**f {
                    Node::Function { body, .. } => body.len(),
                    _ => panic!("not a function"),
                })
                .collect();
            assert_eq!(counts, vec![3, 1]);
        }
        _ => panic!("not a program"),
    }
}

#[test]
fn statements_after_a_closed_function_join_it() {
    let n = parse("function f() { }\nreturn 1;").unwrap();
    match n {
        Node::Program { body } => match &*body[0] {
            Node::Function { body, .. } => assert_eq!(body.len(), 1),
            _ => panic!("not a function"),
        },
        _ => panic!("not a program"),
    }
}

#[test]
fn char_type_is_a_type_error() {
    assert_eq!(parse("function f() { char c <- 1; }").unwrap_err().kind, ParseErrorKind::Type);
}

#[test]
fn diagnostic_names_the_offending_token() {
    let e = parse("function f() {\n  int x <- ;\n}").unwrap_err();
    assert_eq!(e.kind, ParseErrorKind::Expectation);
    assert_eq!((e.line, e.column), (2, 12));
    assert_eq!(e.category(), "Expectation");
    assert_eq!(e.message(), "'Expectation Error: Expected Variable Values' at line 2, char 12");
}

#[test]
fn parameter_list_must_be_complete() {
    assert_eq!(parse("function f(int a,) { }").unwrap_err().kind, ParseErrorKind::Expectation);
    assert_eq!(parse("function f(int) { }").unwrap_err().kind, ParseErrorKind::Expectation);
}

#[test]
fn empty_functions_take_the_default_return_type() {
    let n = parse("function f() {}\nfunction g() {}").unwrap();
    let f = |name: &str| Box::new(Node::Function {
        name: name.to_string(),
        return_type: VariableType::String,
        args: vec![],
        body: vec![],
    });
    assert_eq!(n, Node::Program { body: vec![f("f"), f("g")] });
}

#[test]
fn stray_word_before_brace_is_undefined() {
    let e = parse("function f() { x }").unwrap_err();
    assert_eq!(e.kind, ParseErrorKind::Undefined);
    assert_eq!(e.description, "Unknown 'x'");
}

#[test]
fn return_with_two_values_fails() {
    assert!(parse("function f() { }\nfunction g() { return 1 2; }").is_err());
}
