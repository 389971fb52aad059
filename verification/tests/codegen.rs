use minic::Define;

fn compile(src: &str) -> String {
    Define::emit(Define::parse(src).unwrap()).unwrap()
}

fn count(haystack: &str, needle: &str) -> usize {
    haystack.matches(needle).count()
}

#[test]
fn empty_program_is_just_the_headers() {
    assert_eq!(compile(""), "section .data\n\nsection .text\n\tglobal main\n\n\n");
}

#[test]
fn return_42_has_empty_frame_and_no_externs() {
    let out = compile("fn main(){ return 42 }");
    assert!(out.contains("main:\n\tpush rbp\n\tmov rbp, rsp\n\tsub rsp, 0\n"));
    assert!(out.contains("\tmov rax, 42\n\tleave\n\tret\n"));
    // the explicit return's epilogue plus the function's own epilogue
    assert_eq!(count(&out, "\tleave\n\tret\n"), 2);
    assert!(!out.contains("extern"));
}

#[test]
fn two_locals_get_two_slots_and_a_sixteen_byte_frame() {
    let out = compile("fn main(){\n let x = 1\n let y = 2\n return x + y }");
    assert!(out.contains("\tsub rsp, 16\n"));
    assert!(out.contains("\tmov rax, 1\n\tmov [rbp-8], rax\n"));
    assert!(out.contains("\tmov rax, 2\n\tmov [rbp-16], rax\n"));
    assert!(out.contains(
        "\tmov rax, [rbp-8]\n\tpush rax\n\tmov rax, [rbp-16]\n\tmov r10, rax\n\tpop rax\n\tadd rax, r10\n\tleave\n\tret\n"
    ));
}

#[test]
fn string_literal_is_interned_and_callee_becomes_extern() {
    let out = compile("fn main(){ print(\"hi\\n\") }");
    assert!(out.contains("\tstr.0 db \"hi\", 10, \"\", 0\n"));
    assert!(out.contains("\tmov rax, str.0\n\tpush rax\n"));
    assert!(out.contains("\tpop rdi\n"));
    assert!(out.contains("\textern print\n"));
    assert!(out.contains("\tlea rax, [print]\n\tmov r10, rax\n\txor rax, rax\n\tcall r10\n"));
}

#[test]
fn defined_callee_is_not_an_extern_and_args_push_right_to_left() {
    let out = compile("fn add(a,b){ return a + b }\nfn main(){ return add(2,3) }");
    // `add` spills its two parameters from the first two registers
    assert!(out.contains("add:\n\tpush rbp\n\tmov rbp, rsp\n\tsub rsp, 16\n\tmov qword [rbp-8], rdi\n\tmov qword [rbp-16], rsi\n"));
    // `main` pushes 3 then 2, pops into rdi, rsi
    assert!(out.contains(
        "\tmov rax, 3\n\tpush rax\n\tmov rax, 2\n\tpush rax\n\tpop rdi\n\tpop rsi\n"
    ));
    assert!(!out.contains("extern"));
}

#[test]
fn six_parameters_use_registers_only() {
    let out = compile("fn f(a, b, c, d, e, g){ return a }\nfn main(){ return 0 }");
    assert!(out.contains("\tmov qword [rbp-48], r9\n"));
    assert!(!out.contains("[rbp+"));
}

#[test]
fn seventh_and_eighth_parameters_come_from_the_caller_stack() {
    let out = compile("fn f(a, b, c, d, e, g, h, i){ return a }\nfn main(){ return 0 }");
    assert!(out.contains("\tmov rax, [rbp+16]\n\tmov qword [rbp-56], rax\n"));
    assert!(out.contains("\tmov rax, [rbp+24]\n\tmov qword [rbp-64], rax\n"));
}

#[test]
fn while_true_break_targets_its_own_end_label() {
    let out = compile("fn main(){ while true do { break 0 } }");
    assert_eq!(count(&out, "\nwhile.0:\n"), 1);
    assert_eq!(count(&out, "\nend_while.0:\n"), 1);
    assert!(out.contains("\tmov rax, 0\n\tjmp end_while.0\n"));
}

#[test]
fn break_targets_the_innermost_enclosing_while() {
    let out = compile("fn main(){ while 1 do { if 0 then break 0 } }");
    // exactly one while label pair and one if label pair
    assert_eq!(count(&out, "\nwhile.0:\n"), 1);
    assert_eq!(count(&out, "\nend_while.0:\n"), 1);
    assert_eq!(count(&out, "\nif.1:\n"), 1);
    assert_eq!(count(&out, "\nend_if.1:\n"), 1);
    // the break jumps to the while's end label
    assert!(out.contains("\tjmp end_while.0\n"));
}

#[test]
fn if_else_lowers_to_three_labels() {
    let out = compile("fn main(){ if 1 then return 2 else return 3 }");
    assert!(out.contains("if.0:\n\tmov rax, 1\n\tcmp rax, 0\n\tje else.0\n"));
    assert!(out.contains("\tjmp end_if.0\nelse.0:\n"));
    assert!(out.contains("end_if.0:\n"));
}

#[test]
fn deref_of_address_is_a_load_through_the_slot_address() {
    let out = compile("fn main(){\n let x = 1\n return *&x }");
    // &x takes the slot address, *· loads through it: the same slot the
    // plain variable load reads
    assert!(out.contains("\tlea rax, [rbp-8]\n\tmov rax, [rax]\n"));
}

#[test]
fn plain_local_load_reads_the_same_slot() {
    let out = compile("fn main(){\n let x = 1\n return x }");
    assert!(out.contains("\tmov rax, [rbp-8]\n"));
}

#[test]
fn index_sugar_scales_by_machine_words() {
    let out = compile("fn main(){\n let x = 1\n return x[2] }");
    assert!(out.contains("\tmov rax, 2\n\tpush rax\n\tmov rax, 8\n"));
    assert!(out.contains("\tmov rax, [rax]\n"));
}

#[test]
fn pointer_store_through_deref_lvalue() {
    let out = compile("fn main(){\n let p = 1\n let *p = 2 }");
    assert!(out.contains("\tpush rax\n\tmov rax, [rbp-8]\n\tpop r10\n\tmov qword [rax], r10\n"));
}

#[test]
fn comparison_sets_and_zero_extends() {
    let out = compile("fn main(){ return 1 < 2 }");
    assert!(out.contains("\tcmp rax, r10\n\tsetl al\n\tmovzx rax, al\n"));
}

#[test]
fn division_and_modulo_use_idiv() {
    let out = compile("fn main(){ return 7 / 2 }");
    assert!(out.contains("\tmov rsi, rax\n\tpop rax\n\tcqo\n\tidiv rsi\n"));
    let out = compile("fn main(){ return 7 % 2 }");
    assert!(out.contains("\tidiv rsi\n\tmov rax, rdx\n"));
}

#[test]
fn address_of_an_undefined_variable_is_an_error() {
    let err = Define::emit(Define::parse("fn main(){ let p = &x }").unwrap()).unwrap_err();
    assert!(err.contains("undefined variable"));
    assert!(err.contains("x"));
}

#[test]
fn break_outside_a_loop_is_an_error() {
    let err = Define::emit(Define::parse("fn main(){ break }").unwrap()).unwrap_err();
    assert_eq!(err, "while loop not found");
}

#[test]
fn assigning_to_a_literal_is_an_error() {
    let err = Define::emit(Define::parse("fn main(){ let 1 = 2 }").unwrap()).unwrap_err();
    assert_eq!(err, "invalid assign to");
}

#[test]
fn global_main_is_emitted_even_without_a_main_function() {
    let out = compile("fn helper(){ return 0 }");
    assert!(out.contains("\tglobal main\n"));
}

#[test]
fn label_ids_are_unique_across_functions() {
    let out = compile("fn f(){ if 1 then 2 }\nfn main(){ if 3 then 4 }");
    assert_eq!(count(&out, "\nif.0:\n"), 1);
    assert_eq!(count(&out, "\nif.1:\n"), 1);
    assert_eq!(count(&out, "\nend_if.0:\n"), 1);
    assert_eq!(count(&out, "\nend_if.1:\n"), 1);
}

#[test]
fn extern_set_is_referenced_globals_minus_defined_in_first_reference_order() {
    let out = compile("fn main(){ a(b(), c()) }\nfn b(){ return 0 }");
    // a, b, c are referenced; b is defined here, so only c and a remain,
    // in first-reference order (arguments emit right to left: c before b
    // before a)
    let pos_c = out.find("\textern c\n").unwrap();
    let pos_a = out.find("\textern a\n").unwrap();
    assert!(pos_c < pos_a);
    assert!(!out.contains("\textern b\n"));
}

#[test]
fn escaped_quote_in_string_literal_becomes_byte_34() {
    let out = compile("fn main(){ print(\"a\\\"b\") }");
    assert!(out.contains("\tstr.0 db \"a\", 34, \"b\", 0\n"));
}

#[test]
fn semicolon_drops_the_rest_of_the_line() {
    // a line's `; ...` suffix is discarded, so only the first statement
    // of the line survives and only one slot is allocated
    let out = compile("fn main(){ let x = 1; let y = 2; return x + y }");
    // one slot, rounded up to a sixteen-byte frame
    assert!(out.contains("\tsub rsp, 16\n"));
    assert!(!out.contains("[rbp-16]"));
}
