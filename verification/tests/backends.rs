use stackc::codegen::compile_program;
use stackc::load_program;
use stackc::parser::Op;
use stackc::shift;
use stackc::simulator::simulate_program;
use stackc::text::render_i64;

const PROLOGUE: &str = "section .text\ndump:\n    mov     r9, -3689348814741910323\n    sub     rsp, 40\n    mov     BYTE [rsp+31], 10\n    lea     rcx, [rsp+30]\n.L2:\n    mov     rax, rdi\n    lea     r8, [rsp+32]\n    mul     r9\n    mov     rax, rdi\n    sub     r8, rcx\n    shr     rdx, 3\n    lea     rsi, [rdx+rdx*4]\n    add     rsi, rsi\n    sub     rax, rsi\n    add     eax, 48\n    mov     BYTE [rcx], al\n    mov     rax, rdi\n    mov     rdi, rdx\n    mov     rdx, rcx\n    sub     rcx, 1\n    cmp     rax, 9\n    ja      .L2\n    lea     rax, [rsp+32]\n    mov     edi, 1\n    sub     rdx, rax\n    xor     eax, eax\n    lea     rsi, [rsp+32+rdx]\n    mov     rdx, r8\n    mov     rax, 1\n    syscall\n    add     rsp, 40\n    ret\nglobal _start\n_start:\n";
const EPILOGUE: &str = "    mov rax, 60\n    mov rdi, 0\n    syscall\n";

fn run(src: &[u8]) -> Vec<i64> {
    simulate_program(&load_program(src).unwrap()).unwrap()
}

#[test]
fn push_then_dump_outputs_the_value() {
    assert_eq!(run(b"5 dump"), vec![5]);
    assert_eq!(run(b"-3 dump"), vec![-3]);
    assert_eq!(run(b"0 dump"), vec![0]);
}

#[test]
fn sub_takes_second_popped_minus_first_popped() {
    assert_eq!(run(b"10 3 - dump"), vec![7]);
}

#[test]
fn add_sums_the_two_top_values() {
    assert_eq!(run(b"30 4 + dump"), vec![34]);
}

#[test]
fn equal_pushes_one_or_zero() {
    assert_eq!(run(b"5 5 ?= dump"), vec![1]);
    assert_eq!(run(b"5 6 ?= dump"), vec![0]);
}

#[test]
fn dump_keeps_the_stack() {
    assert_eq!(run(b"8 dump dump 1 + dump"), vec![8, 8, 9]);
}

#[test]
fn arithmetic_wraps_around() {
    assert_eq!(run(b"9223372036854775807 1 + dump"), vec![i64::MIN]);
    assert_eq!(run(b"-9223372036854775808 1 - dump"), vec![i64::MAX]);
}

#[test]
fn underflow_faults_and_keeps_earlier_output() {
    let program = load_program(b"5 dump +").unwrap();
    let fault = simulate_program(&program).unwrap_err();
    assert_eq!(fault.out, vec![5]);

    let program = load_program(b"dump").unwrap();
    let fault = simulate_program(&program).unwrap_err();
    assert_eq!(fault.out, Vec::<i64>::new());

    let program = load_program(b"1 ?=").unwrap();
    let fault = simulate_program(&program).unwrap_err();
    assert_eq!(fault.out, Vec::<i64>::new());

    assert!(simulate_program(&vec![Op::Sub]).is_err());
}

#[test]
fn render_formats_decimals_exactly() {
    assert_eq!(render_i64(0), "0");
    assert_eq!(render_i64(7), "7");
    assert_eq!(render_i64(100), "100");
    assert_eq!(render_i64(-1), "-1");
    assert_eq!(render_i64(i64::MAX), "9223372036854775807");
    assert_eq!(render_i64(i64::MIN), "-9223372036854775808");
}

#[test]
fn compile_emits_prologue_blocks_and_epilogue() {
    let program = load_program(b"5 dump").unwrap();
    let text = compile_program(&program);
    let expected = format!(
        "{}{}{}{}",
        PROLOGUE, "    push 5\n", "    pop rdi\n    call dump\n", EPILOGUE
    );
    assert_eq!(text, expected);
}

#[test]
fn compile_emits_one_block_per_instruction_in_order() {
    let program = load_program(b"10 3 - dump").unwrap();
    let text = compile_program(&program);
    let expected = format!(
        "{}{}{}{}{}{}",
        PROLOGUE,
        "    push 10\n    push 3\n",
        "    pop rax\n    pop rbx\n    sub rbx, rax\n    push rbx\n",
        "    pop rdi\n    call dump\n",
        "",
        EPILOGUE
    );
    assert_eq!(text, expected);
}

#[test]
fn compile_equal_block_is_branchless() {
    let program = vec![Op::Equal, Op::Add];
    let text = compile_program(&program);
    let expected = format!(
        "{}{}{}{}",
        PROLOGUE,
        "    mov rcx, 0\n    mov rdx, 1\n    pop rax\n    pop rbx\n    cmp rax, rbx\n    cmove rcx, rdx\n    push rcx\n",
        "    pop rax\n    pop rbx\n    add rbx, rax\n    push rbx\n",
        EPILOGUE
    );
    assert_eq!(text, expected);
}

#[test]
fn compile_of_the_empty_program_is_just_the_fixed_text() {
    let text = compile_program(&Vec::new());
    assert_eq!(text, format!("{}{}", PROLOGUE, EPILOGUE));
}

#[test]
fn shift_reads_and_advances() {
    let args = vec![String::from("prog"), String::from("sim"), String::from("in.txt")];
    let mut index = 0;
    assert_eq!(shift(&args, &mut index), "prog");
    assert_eq!(shift(&args, &mut index), "sim");
    assert_eq!(shift(&args, &mut index), "in.txt");
    assert_eq!(index, 3);
}
