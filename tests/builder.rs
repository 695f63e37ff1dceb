use minlang::builder::Builder;
use minlang::return_code::{Code, Return};

const BASE: &str = "section .data\nsection .bss\nsection .text\n    global _start\n";

#[test]
fn new_builder_holds_the_three_sections() {
    let b = Builder::new();
    assert_eq!(b.build_no_start(), BASE);
}

#[test]
fn new_program_names_the_entry_label() {
    let mut b = Builder::new_program("entry");
    let out = b.build();
    assert!(out.contains("    global entry\n"));
    assert!(out.contains("\n    entry:\n        call            main\n"));
}

#[test]
fn build_appends_the_exit_epilogue() {
    let mut b = Builder::new();
    let out = b.build();
    let end = "\n    _start:\n        call            main\n        mov             rbx, rax\n\n        mov             rax, 60                 ; system call for exit\n        mov             rdi, rbx\n        syscall\n";
    assert_eq!(out, format!("{}{}", BASE, end));
}

#[test]
fn open_and_close_emit_prologue_and_epilogue() {
    let mut b = Builder::new();
    assert_eq!(b.open_function("f").code, Code::Good);
    assert_eq!(b.close_function().code, Code::Good);
    let expected = format!(
        "{}\tf:\n\t\tpush\t\t\trbp\n\t\tmov\t\t\t\trbp, rsp\n\t\tpop\t\t\t\trbp\n\t\tret\n\n",
        BASE
    );
    assert_eq!(b.build_no_start(), expected);
}

#[test]
fn frame_balance_follows_opens_and_closes() {
    let mut b = Builder::new();
    assert!(!b.is_in_function());
    assert_eq!(b.open_function("a").code, Code::Good);
    assert!(b.is_in_function());
    let before = b.build_no_start();
    assert_eq!(b.open_function("b").code, Code::FunctionWithinFunctionErr);
    assert!(b.is_in_function());
    assert_eq!(b.build_no_start(), before);
    assert_eq!(b.close_function().code, Code::Good);
    assert!(!b.is_in_function());
    let before = b.build_no_start();
    assert_eq!(b.close_function().code, Code::ClosingOfNonFunctionErr);
    assert!(!b.is_in_function());
    assert_eq!(b.build_no_start(), before);
}

#[test]
fn local_offsets_are_partial_sums() {
    let mut b = Builder::new();
    b.open_function("f");
    assert_eq!(b.new_local_word(7).code, Code::Good);
    assert_eq!(b.new_local_dword(8).code, Code::Good);
    assert_eq!(b.new_local_qword(9).code, Code::Good);
    let (r0, s0, o0) = b.get_local_word_size_and_offset(0);
    let (r1, s1, o1) = b.get_local_word_size_and_offset(1);
    let (r2, s2, o2) = b.get_local_word_size_and_offset(2);
    assert_eq!((r0.code, s0, o0), (Code::Good, 2, 2));
    assert_eq!((r1.code, s1, o1), (Code::Good, 4, 6));
    assert_eq!((r2.code, s2, o2), (Code::Good, 8, 14));
    let (r3, s3, o3) = b.get_local_word_size_and_offset(3);
    assert_eq!((r3.code, s3, o3), (Code::OutOfRange, 0, 0));
    b.close_function();
    let out = b.build_no_start();
    assert!(out.contains("\t\tmov\t\t\t\tword [rsp - 2], 7\n"));
    assert!(out.contains("\t\tmov\t\t\t\tdword [rsp - 6], 8\n"));
    assert!(out.contains("\t\tmov\t\t\t\tqword [rsp - 14], 9\n"));
}

#[test]
fn closing_a_frame_discards_its_locals() {
    let mut b = Builder::new();
    b.open_function("f");
    b.new_local_dword(1);
    b.close_function();
    assert_eq!(b.get_local_word_size_and_offset(0).0.code, Code::OutOfRange);
    b.open_function("g");
    b.new_local_dword(2);
    let (_, size, offset) = b.get_local_word_size_and_offset(0);
    assert_eq!((size, offset), (4, 4));
}

#[test]
fn local_outside_a_function_is_refused() {
    let mut b = Builder::new();
    let before = b.build_no_start();
    assert_eq!(b.new_local_dword(1).code, Code::LocalVariableNotInFunction);
    assert_eq!(b.local_word_assign(4, "dword", "eax").code, Code::LocalVariableNotInFunction);
    assert_eq!(b.build_no_start(), before);
}

#[test]
fn local_frame_size_is_bounded() {
    let mut b = Builder::new();
    b.open_function("f");
    assert_eq!(b.local_word_assign(u32::MAX, "byte", "0").code, Code::Good);
    assert_eq!(b.new_local_word(1).code, Code::OutOfRange);
    assert_eq!(b.local_count(), 1);
}

#[test]
fn call_function_moves_arguments_in_register_order() {
    let mut b = Builder::new();
    b.open_function("f");
    assert_eq!(b.call_function("g", vec!["1", "2"]).code, Code::Good);
    b.close_function();
    let out = b.build_no_start();
    assert!(out.contains("\t\tmov\t\t\t\tedi, 1\n\t\tmov\t\t\t\tesi, 2\n\t\tcall\t\t\tg\n"));
}

#[test]
fn call_function_refuses_more_arguments_than_registers() {
    let mut b = Builder::new();
    b.open_function("f");
    let before = b.build_no_start();
    let r = b.call_function("g", vec!["1", "2", "3", "4", "5", "6", "7"]);
    assert_eq!(r.code, Code::BadArguments);
    assert_eq!(b.build_no_start(), before);
    assert_eq!(b.call_function("g", vec!["1", "2", "3", "4", "5", "6"]).code, Code::Good);
}

#[test]
fn syscall_uses_the_system_call_table() {
    let mut b = Builder::new();
    b.open_function("f");
    assert_eq!(b.syscall(vec!["60", "0"]).code, Code::Good);
    b.close_function();
    let out = b.build_no_start();
    assert!(out.contains("\t\tmov\t\t\t\trax, 60\n\t\tmov\t\t\t\trdi, 0\n\t\tsyscall\n"));
}

#[test]
fn syscall_refuses_more_elements_than_registers() {
    let mut b = Builder::new();
    assert_eq!(b.syscall(vec!["1", "2", "3", "4", "5", "6", "7"]).code, Code::Good);
    let r = b.syscall(vec!["1", "2", "3", "4", "5", "6", "7", "8"]);
    assert_eq!(r.code, Code::BadArguments);
}

#[test]
fn set_func_args_order_requires_the_same_length() {
    let mut b = Builder::new();
    let short: Vec<String> = vec!["a".to_string(), "b".to_string()];
    assert_eq!(b.set_func_args_order(short).code, Code::BadArguments);
    let order: Vec<String> = ["r1", "r2", "r3", "r4", "r5", "r6"].iter().map(|s| s.to_string()).collect();
    assert_eq!(b.set_func_args_order(order).code, Code::Good);
    b.open_function("f");
    b.call_function("g", vec!["5"]);
    b.close_function();
    assert!(b.build_no_start().contains("\t\tmov\t\t\t\tr1, 5\n"));
    assert_eq!(b.func_arg_register(5), Some("r6".to_string()));
    assert_eq!(b.func_arg_register(6), None);
}

#[test]
fn string_literal_is_a_zero_terminated_byte_list() {
    let mut b = Builder::new();
    b.new_string_literal("s", "hi");
    b.new_string_literal("e", "");
    let out = b.build_no_start();
    assert!(out.starts_with("section .data\n\ts: db 104, 105, 0\n\te: db 0\n"));
}

#[test]
fn string_literal_with_len_records_its_length() {
    let mut b = Builder::new();
    b.new_string_literal_with_len("msg", "a");
    b.new_len_addr("n", "msg");
    let out = b.build_no_start();
    assert!(out.starts_with("section .data\n\tmsg: db 97, 0\n\t.len: equ $ - msg\n\tn: equ $ - msg\n"));
}

#[test]
fn arithmetic_and_raw_instructions() {
    let mut b = Builder::new();
    b.open_function("f");
    b.add("eax", "ecx");
    b.sub("eax", "1");
    b.mul("eax", "ecx");
    b.div("eax", "ecx");
    b.push("rax");
    b.call("g");
    b.add_raw_asm1("cqo");
    b.add_raw_asm2("inc", "eax");
    b.add_raw_asm3("movzx", "eax", "al");
    b.new_syscall();
    b.close_function();
    let out = b.build_no_start();
    let body = "\t\tadd\t\t\t\teax, ecx\n\t\tsub\t\t\t\teax, 1\n\t\tmul\t\t\t\teax, ecx\n\t\tdiv\t\t\t\teax, ecx\n\t\tpush\t\t\trax\n\t\tcall\t\t\tg\n\t\tcqo\n\t\tinc\t\t\t\teax\n\t\tmovzx\t\t\teax, al\n\t\tsyscall\n";
    assert!(out.contains(body));
}

#[test]
fn extern_and_built_in_text() {
    let mut b = Builder::new();
    b.extern_add("printf");
    b.add_built_in_function("helper:\n\tret\n");
    assert_eq!(b.build_no_start(), format!("{}\textern\t\t\t\tprintf\nhelper:\n\tret\n", BASE));
}

#[test]
fn return_value_carries_message_and_code() {
    let r = Return::new("oops".to_string(), Code::NameErr);
    assert_eq!(r.message, "oops");
    assert_eq!(r.code, Code::NameErr);
    assert!(!r.is_good());
    assert!(Return::new(String::new(), Code::Good).is_good());
}

#[test]
fn decimal_rendering() {
    assert_eq!(minlang::text::decimal_string(0), "0");
    assert_eq!(minlang::text::decimal_string(1234567), "1234567");
}
