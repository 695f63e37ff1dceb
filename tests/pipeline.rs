use minlang::compile;
use minlang::compiler::{Compiler, GenErrorKind};
use minlang::minimal_lang::CompileError;
use minlang::parser::{ConstValue, Node, ParseErrorKind, VariableType};
use minlang::return_code::Code;

#[test]
fn return_of_a_stored_local() {
    let out = compile("function main() -> int {\n    int x <- 41;\n    return x;\n}\n").unwrap();
    assert!(out.contains("\tmain:\n\t\tpush\t\t\trbp\n\t\tmov\t\t\t\trbp, rsp\n"));
    assert!(out.contains("\t\tmov\t\t\t\tdword [rsp - 4], 41\n\t\tmov\t\t\t\teax, dword [rsp - 4]\n\t\tpop\t\t\t\trbp\n\t\tret\n"));
    assert!(out.starts_with("section .data\n"));
    assert!(out.ends_with("        mov             rdi, rbx\n        syscall\n"));
    let data = out.find("section .data").unwrap();
    let bss = out.find("section .bss").unwrap();
    let text = out.find("section .text").unwrap();
    assert!(data < bss && bss < text);
}

#[test]
fn unresolved_variable_is_reported() {
    match compile("function main() -> int { return y; }") {
        Err(CompileError::Generate(e)) => assert_eq!(e.kind, GenErrorKind::UnresolvedVariable),
        other => panic!("unexpected {:?}", other),
    }
}

#[test]
fn names_do_not_cross_functions() {
    match compile("function a() { int x <- 1; }\nfunction b() -> int { return x; }") {
        Err(CompileError::Generate(e)) => assert_eq!(e.kind, GenErrorKind::UnresolvedVariable),
        other => panic!("unexpected {:?}", other),
    }
}

#[test]
fn too_many_call_arguments_are_refused() {
    match compile("function main() { f(1, 2, 3, 4, 5, 6, 7); }") {
        Err(CompileError::Generate(e)) => {
            assert_eq!(e.kind, GenErrorKind::Builder { code: Code::BadArguments })
        }
        other => panic!("unexpected {:?}", other),
    }
}

#[test]
fn float_local_is_unsupported() {
    match compile("function main() { float f <- 1.5; }") {
        Err(CompileError::Generate(e)) => assert_eq!(e.kind, GenErrorKind::Unsupported),
        other => panic!("unexpected {:?}", other),
    }
}

#[test]
fn call_with_parameter_string_and_boolean() {
    let out = compile("function show(int n, bool b) { put_i(n); }\nfunction main() -> int { string s <- \"ok\"; bool t <- true; show(7, t); return 0; }").unwrap();
    assert!(out.contains("\t\tmov\t\t\t\tedi, edi\n\t\tcall\t\t\tput_i\n"));
    let at = out.find(": db 111, 107, 0\n").expect("literal declared");
    let label_start = out[..at].rfind('\t').unwrap() + 1;
    let label = &out[label_start..at];
    assert!(label.starts_with("str_"));
    assert!(out.contains(&format!("\t\tmov\t\t\t\tqword [rsp - 8], {}\n", label)));
    assert!(out.contains("\t\tmov\t\t\t\tword [rsp - 10], 1\n"));
    assert!(out.contains("\t\tmovzx\t\t\tesi, word [rsp - 10]\n\t\tmov\t\t\t\tedi, 7\n\t\tmov\t\t\t\tesi, esi\n\t\tcall\t\t\tshow\n"));
}

#[test]
fn unclosed_scope_aborts_compilation() {
    match compile("function main() {") {
        Err(CompileError::Parse(e)) => assert_eq!(e.kind, ParseErrorKind::UnclosedScopes { count: 1 }),
        other => panic!("unexpected {:?}", other),
    }
}

#[test]
fn lex_error_aborts_compilation() {
    assert!(matches!(compile("function main() { # }"), Err(CompileError::Lex(_))));
}

#[test]
fn binary_operation_is_evaluated_into_the_accumulator() {
    let program = Node::Program {
        body: vec![Box::new(Node::Function {
            name: "main".to_string(),
            return_type: VariableType::Integer,
            args: vec![],
            body: vec![Box::new(Node::Assign {
                name: "n".to_string(),
                var_type: VariableType::Integer,
                value: Box::new(Node::Expr {
                    value: Box::new(Node::BinaryOp {
                        left: Box::new(Node::Const { value_type: ConstValue::Integer { value: 6 } }),
                        op: minlang::parser::BinaryOperation::Div,
                        right: Box::new(Node::Const { value_type: ConstValue::Integer { value: 3 } }),
                    }),
                }),
            })],
        })],
    };
    let mut c = Compiler::new(program);
    let out = c.run().unwrap();
    assert!(out.contains("\t\tmov\t\t\t\teax, 6\n\t\tmov\t\t\t\tecx, 3\n\t\txor\t\t\t\tedx, edx\n\t\tdiv\t\t\t\tecx\n\t\tmov\t\t\t\tdword [rsp - 4], eax\n"));
}
