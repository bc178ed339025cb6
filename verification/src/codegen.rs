//! Assembly generation: translating a program into nasm-syntax x86-64 text,
//! one code block per instruction in program order, between a fixed decimal
//! print routine and a fixed exit epilogue.

use vstd::prelude::*;

use crate::parser::Op;
use crate::text::{dec_str, render_i64};

verus! {

/// The fixed, program-independent prelude: the `dump` routine that prints
/// the unsigned value handed to it in `rdi` as decimal plus newline, and the
/// entry point marker.
pub open spec fn asm_prologue() -> Seq<char> {
    "section .text\ndump:\n    mov     r9, -3689348814741910323\n    sub     rsp, 40\n    mov     BYTE [rsp+31], 10\n    lea     rcx, [rsp+30]\n.L2:\n    mov     rax, rdi\n    lea     r8, [rsp+32]\n    mul     r9\n    mov     rax, rdi\n    sub     r8, rcx\n    shr     rdx, 3\n    lea     rsi, [rdx+rdx*4]\n    add     rsi, rsi\n    sub     rax, rsi\n    add     eax, 48\n    mov     BYTE [rcx], al\n    mov     rax, rdi\n    mov     rdi, rdx\n    mov     rdx, rcx\n    sub     rcx, 1\n    cmp     rax, 9\n    ja      .L2\n    lea     rax, [rsp+32]\n    mov     edi, 1\n    sub     rdx, rax\n    xor     eax, eax\n    lea     rsi, [rsp+32+rdx]\n    mov     rdx, r8\n    mov     rax, 1\n    syscall\n    add     rsp, 40\n    ret\nglobal _start\n_start:\n"@
}

/// The fixed epilogue: terminate the process with exit status 0.
pub open spec fn asm_epilogue() -> Seq<char> {
    "    mov rax, 60\n    mov rdi, 0\n    syscall\n"@
}

/// The code block of one instruction: a pure per-kind template. `Equal`
/// pushes its flag branchlessly through a conditional move.
pub open spec fn op_asm(op: Op) -> Seq<char> {
    match op {
        Op::Push(v) => "    push "@ + dec_str(v as int) + "\n"@,
        Op::Add => "    pop rax\n    pop rbx\n    add rbx, rax\n    push rbx\n"@,
        Op::Sub => "    pop rax\n    pop rbx\n    sub rbx, rax\n    push rbx\n"@,
        Op::Equal => "    mov rcx, 0\n    mov rdx, 1\n    pop rax\n    pop rbx\n    cmp rax, rbx\n    cmove rcx, rdx\n    push rcx\n"@,
        Op::Dump => "    pop rdi\n    call dump\n"@,
    }
}

/// The instruction blocks of a whole program, in program order, with no
/// reordering and no elimination.
pub open spec fn prog_asm(prog: Seq<Op>) -> Seq<char>
    decreases prog.len(),
{
    if prog.len() == 0 {
        Seq::empty()
    } else {
        op_asm(prog[0]) + prog_asm(prog.skip(1))
    }
}

/// The whole text artifact of a program.
pub open spec fn asm_spec(prog: Seq<Op>) -> Seq<char> {
    asm_prologue() + prog_asm(prog) + asm_epilogue()
}

pub proof fn lemma_prog_asm_snoc(prog: Seq<Op>, op: Op)
    ensures
        prog_asm(prog.push(op)) == prog_asm(prog) + op_asm(op),
    decreases prog.len(),
{
    if prog.len() == 0 {
        assert(prog.push(op)[0] == op);
        assert(prog.push(op).skip(1) =~= Seq::<Op>::empty());
        assert(prog_asm(prog.push(op)) == op_asm(op) + prog_asm(Seq::<Op>::empty()));
        assert(op_asm(op) + Seq::<char>::empty() =~= op_asm(op));
        assert(Seq::<char>::empty() + op_asm(op) =~= op_asm(op));
    } else {
        assert(prog.push(op)[0] == prog[0]);
        assert(prog.push(op).skip(1) =~= prog.skip(1).push(op));
        assert(prog_asm(prog.push(op)) == op_asm(prog[0]) + prog_asm(prog.skip(1).push(op)));
        lemma_prog_asm_snoc(prog.skip(1), op);
        assert(op_asm(prog[0]) + (prog_asm(prog.skip(1)) + op_asm(op)) =~= (op_asm(prog[0])
            + prog_asm(prog.skip(1))) + op_asm(op));
    }
}

/// Translates the program into its assembly text: the fixed print routine,
/// the entry point, one block per instruction in program order, and the exit
/// epilogue — character for character what `asm_spec` says.
pub fn compile_program(program: &Vec<Op>) -> (r: String)
    ensures
        r@ == asm_spec(program@),
{
    let mut out = String::new();
    out.push_str(
        "section .text\ndump:\n    mov     r9, -3689348814741910323\n    sub     rsp, 40\n    mov     BYTE [rsp+31], 10\n    lea     rcx, [rsp+30]\n.L2:\n    mov     rax, rdi\n    lea     r8, [rsp+32]\n    mul     r9\n    mov     rax, rdi\n    sub     r8, rcx\n    shr     rdx, 3\n    lea     rsi, [rdx+rdx*4]\n    add     rsi, rsi\n    sub     rax, rsi\n    add     eax, 48\n    mov     BYTE [rcx], al\n    mov     rax, rdi\n    mov     rdi, rdx\n    mov     rdx, rcx\n    sub     rcx, 1\n    cmp     rax, 9\n    ja      .L2\n    lea     rax, [rsp+32]\n    mov     edi, 1\n    sub     rdx, rax\n    xor     eax, eax\n    lea     rsi, [rsp+32+rdx]\n    mov     rdx, r8\n    mov     rax, 1\n    syscall\n    add     rsp, 40\n    ret\nglobal _start\n_start:\n",
    );
    let mut idx: usize = 0;
    proof {
        assert(program@.take(0) =~= Seq::<Op>::empty());
        assert(out@ =~= asm_prologue() + prog_asm(program@.take(0)));
    }
    while idx < program.len()
        invariant
            idx <= program@.len(),
            out@ == asm_prologue() + prog_asm(program@.take(idx as int)),
        decreases program@.len() - idx,
    {
        let ghost done = program@.take(idx as int);
        match program[idx] {
            Op::Push(v) => {
                out.push_str("    push ");
                let digits = render_i64(v);
                out.push_str(digits.as_str());
                out.push_str("\n");
            },
            Op::Add => {
                out.push_str("    pop rax\n    pop rbx\n    add rbx, rax\n    push rbx\n");
            },
            Op::Sub => {
                out.push_str("    pop rax\n    pop rbx\n    sub rbx, rax\n    push rbx\n");
            },
            Op::Equal => {
                out.push_str(
                    "    mov rcx, 0\n    mov rdx, 1\n    pop rax\n    pop rbx\n    cmp rax, rbx\n    cmove rcx, rdx\n    push rcx\n",
                );
            },
            Op::Dump => {
                out.push_str("    pop rdi\n    call dump\n");
            },
        }
        proof {
            assert(program@.take(idx as int + 1) =~= done.push(program@[idx as int]));
            lemma_prog_asm_snoc(done, program@[idx as int]);
            assert(out@ =~= asm_prologue() + prog_asm(program@.take(idx as int + 1)));
        }
        idx += 1;
    }
    out.push_str("    mov rax, 60\n    mov rdi, 0\n    syscall\n");
    proof {
        assert(program@.take(program@.len() as int) =~= program@);
        assert(out@ =~= asm_spec(program@));
    }
    out
}

} // verus!
