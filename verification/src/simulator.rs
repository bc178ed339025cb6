//! Direct execution: running a program against a freshly created integer
//! stack, collecting the value every `Dump` emits, and faulting on stack
//! underflow.

use vstd::prelude::*;

use crate::parser::Op;
use vstd::wrapping::i64_specs;

verus! {

/// What a run comes to: either the program halts with a final stack and the
/// dumped values in order, or it faults on stack underflow after having
/// dumped `out`.
pub enum SimOutcome {
    Halted { stack: Seq<i64>, out: Seq<i64> },
    Underflow { out: Seq<i64> },
}

/// The fatal stack-underflow fault, carrying the values dumped before it.
#[derive(Clone, Debug, PartialEq, Eq)]
pub struct StackUnderflow {
    pub out: Vec<i64>,
}

/// Stack elements an operation consumes.
pub open spec fn arity(op: Op) -> nat {
    match op {
        Op::Push(_) => 0,
        Op::Add => 2,
        Op::Sub => 2,
        Op::Equal => 2,
        Op::Dump => 1,
    }
}

/// Executes `prog` against `stack` with output collected so far in `out`,
/// one instruction at a time, in program order. Arithmetic wraps around;
/// `Dump` reads the top of the stack without removing it.
pub open spec fn sim_spec(prog: Seq<Op>, stack: Seq<i64>, out: Seq<i64>) -> SimOutcome
    decreases prog.len(),
{
    if prog.len() == 0 {
        SimOutcome::Halted { stack, out }
    } else {
        match prog[0] {
            Op::Push(v) => sim_spec(prog.skip(1), stack.push(v), out),
            Op::Add => if stack.len() < 2 {
                SimOutcome::Underflow { out }
            } else {
                sim_spec(
                    prog.skip(1),
                    stack.drop_last().drop_last().push(
                        i64_specs::wrapping_add(stack[stack.len() - 2], stack.last()),
                    ),
                    out,
                )
            },
            Op::Sub => if stack.len() < 2 {
                SimOutcome::Underflow { out }
            } else {
                sim_spec(
                    prog.skip(1),
                    stack.drop_last().drop_last().push(
                        i64_specs::wrapping_sub(stack[stack.len() - 2], stack.last()),
                    ),
                    out,
                )
            },
            Op::Equal => if stack.len() < 2 {
                SimOutcome::Underflow { out }
            } else {
                sim_spec(
                    prog.skip(1),
                    stack.drop_last().drop_last().push(
                        if stack[stack.len() - 2] == stack.last() {
                            1i64
                        } else {
                            0i64
                        },
                    ),
                    out,
                )
            },
            Op::Dump => if stack.len() < 1 {
                SimOutcome::Underflow { out }
            } else {
                sim_spec(prog.skip(1), stack, out.push(stack.last()))
            },
        }
    }
}

/// A whole run: `prog` executed against an empty stack with no output yet.
pub open spec fn run_spec(prog: Seq<Op>) -> SimOutcome {
    sim_spec(prog, Seq::empty(), Seq::empty())
}

/// Law: pushing `v` and dumping at once halts with exactly `v` as the whole
/// output.
pub proof fn lemma_push_dump(v: i64)
    ensures
        run_spec(seq![Op::Push(v), Op::Dump]) == (SimOutcome::Halted {
            stack: seq![v],
            out: seq![v],
        }),
{
    let p = seq![Op::Push(v), Op::Dump];
    let e = Seq::<i64>::empty();
    assert(p.skip(1) =~= seq![Op::Dump]);
    assert(e.push(v) =~= seq![v]);
    assert(sim_spec(p, e, e) == sim_spec(seq![Op::Dump], seq![v], e));
    assert(seq![Op::Dump].skip(1) =~= Seq::<Op>::empty());
    assert(seq![v].last() == v);
    assert(e.push(v) =~= seq![v]);
    assert(sim_spec(seq![Op::Dump], seq![v], e) == sim_spec(Seq::<Op>::empty(), seq![v], seq![v]));
}

/// Law: `Sub` takes the second-popped value minus the first-popped one:
/// pushing `b`, then `a`, subtracting and dumping outputs exactly
/// `b - a` (wrapping).
pub proof fn lemma_sub_pop_order(b: i64, a: i64)
    ensures
        run_spec(seq![Op::Push(b), Op::Push(a), Op::Sub, Op::Dump]) == (SimOutcome::Halted {
            stack: seq![i64_specs::wrapping_sub(b, a)],
            out: seq![i64_specs::wrapping_sub(b, a)],
        }),
{
    let p = seq![Op::Push(b), Op::Push(a), Op::Sub, Op::Dump];
    let e = Seq::<i64>::empty();
    let d = i64_specs::wrapping_sub(b, a);
    assert(p.skip(1) =~= seq![Op::Push(a), Op::Sub, Op::Dump]);
    assert(e.push(b) =~= seq![b]);
    assert(sim_spec(p, e, e) == sim_spec(seq![Op::Push(a), Op::Sub, Op::Dump], seq![b], e));
    assert(seq![Op::Push(a), Op::Sub, Op::Dump].skip(1) =~= seq![Op::Sub, Op::Dump]);
    assert(seq![b].push(a) =~= seq![b, a]);
    assert(sim_spec(seq![Op::Push(a), Op::Sub, Op::Dump], seq![b], e) == sim_spec(
        seq![Op::Sub, Op::Dump],
        seq![b, a],
        e,
    ));
    assert(seq![Op::Sub, Op::Dump].skip(1) =~= seq![Op::Dump]);
    assert(seq![b, a][0] == b && seq![b, a].last() == a);
    assert(seq![b, a].drop_last().drop_last().push(d) =~= seq![d]);
    assert(sim_spec(seq![Op::Sub, Op::Dump], seq![b, a], e) == sim_spec(
        seq![Op::Dump],
        seq![d],
        e,
    ));
    assert(seq![Op::Dump].skip(1) =~= Seq::<Op>::empty());
    assert(e.push(d) =~= seq![d]);
    assert(sim_spec(seq![Op::Dump], seq![d], e) == sim_spec(Seq::<Op>::empty(), seq![d], seq![d]));
}

/// Law: `Equal` pushes the flag `1` when the two popped values are equal and
/// `0` when they are not; dumping it outputs that flag.
pub proof fn lemma_equal_flag(b: i64, a: i64)
    ensures
        run_spec(seq![Op::Push(b), Op::Push(a), Op::Equal, Op::Dump]) == (SimOutcome::Halted {
            stack: seq![if b == a { 1i64 } else { 0i64 }],
            out: seq![if b == a { 1i64 } else { 0i64 }],
        }),
{
    let p = seq![Op::Push(b), Op::Push(a), Op::Equal, Op::Dump];
    let e = Seq::<i64>::empty();
    let f: i64 = if b == a {
        1
    } else {
        0
    };
    assert(p.skip(1) =~= seq![Op::Push(a), Op::Equal, Op::Dump]);
    assert(e.push(b) =~= seq![b]);
    assert(sim_spec(p, e, e) == sim_spec(seq![Op::Push(a), Op::Equal, Op::Dump], seq![b], e));
    assert(seq![Op::Push(a), Op::Equal, Op::Dump].skip(1) =~= seq![Op::Equal, Op::Dump]);
    assert(seq![b].push(a) =~= seq![b, a]);
    assert(sim_spec(seq![Op::Push(a), Op::Equal, Op::Dump], seq![b], e) == sim_spec(
        seq![Op::Equal, Op::Dump],
        seq![b, a],
        e,
    ));
    assert(seq![Op::Equal, Op::Dump].skip(1) =~= seq![Op::Dump]);
    assert(seq![b, a][0] == b && seq![b, a].last() == a);
    assert(seq![b, a].drop_last().drop_last().push(f) =~= seq![f]);
    assert(sim_spec(seq![Op::Equal, Op::Dump], seq![b, a], e) == sim_spec(
        seq![Op::Dump],
        seq![f],
        e,
    ));
    assert(seq![Op::Dump].skip(1) =~= Seq::<Op>::empty());
    assert(e.push(f) =~= seq![f]);
    assert(sim_spec(seq![Op::Dump], seq![f], e) == sim_spec(Seq::<Op>::empty(), seq![f], seq![f]));
}

proof fn lemma_underflow_aux(prog: Seq<Op>, op: Op, stack: Seq<i64>, out: Seq<i64>)
    ensures
        (sim_spec(prog, stack, out) matches SimOutcome::Halted { stack: s2, out: o2 }
            ==> s2.len() < arity(op) ==> sim_spec(prog.push(op), stack, out)
            == (SimOutcome::Underflow { out: o2 })),
        (sim_spec(prog, stack, out) matches SimOutcome::Underflow { out: o2 } ==> sim_spec(
            prog.push(op),
            stack,
            out,
        ) == (SimOutcome::Underflow { out: o2 })),
    decreases prog.len(),
{
    if prog.len() == 0 {
        assert(prog.push(op)[0] == op);
        assert(prog.push(op).skip(1) =~= Seq::<Op>::empty());
        if stack.len() < arity(op) {
            match op {
                Op::Push(_) => {
                    assert(false);
                },
                Op::Add => {},
                Op::Sub => {},
                Op::Equal => {},
                Op::Dump => {},
            }
        }
    } else {
        assert(prog.push(op)[0] == prog[0]);
        assert(prog.push(op).skip(1) =~= prog.skip(1).push(op));
        match prog[0] {
            Op::Push(v) => {
                lemma_underflow_aux(prog.skip(1), op, stack.push(v), out);
            },
            Op::Add => {
                if stack.len() >= 2 {
                    lemma_underflow_aux(
                        prog.skip(1),
                        op,
                        stack.drop_last().drop_last().push(
                            i64_specs::wrapping_add(stack[stack.len() - 2], stack.last()),
                        ),
                        out,
                    );
                }
            },
            Op::Sub => {
                if stack.len() >= 2 {
                    lemma_underflow_aux(
                        prog.skip(1),
                        op,
                        stack.drop_last().drop_last().push(
                            i64_specs::wrapping_sub(stack[stack.len() - 2], stack.last()),
                        ),
                        out,
                    );
                }
            },
            Op::Equal => {
                if stack.len() >= 2 {
                    lemma_underflow_aux(
                        prog.skip(1),
                        op,
                        stack.drop_last().drop_last().push(
                            if stack[stack.len() - 2] == stack.last() {
                                1i64
                            } else {
                                0i64
                            },
                        ),
                        out,
                    );
                }
            },
            Op::Dump => {
                if stack.len() >= 1 {
                    lemma_underflow_aux(prog.skip(1), op, stack, out.push(stack.last()));
                }
            },
        }
    }
}

/// Law: a program extended with an operation that needs more stack elements
/// than the program leaves behind faults with stack underflow at once, and
/// produces no output beyond what the program had already dumped.
pub proof fn lemma_underflow_after_halt(prog: Seq<Op>, op: Op)
    requires
        run_spec(prog) is Halted,
        run_spec(prog)->Halted_stack.len() < arity(op),
    ensures
        run_spec(prog.push(op)) == (SimOutcome::Underflow { out: run_spec(prog)->Halted_out }),
{
    lemma_underflow_aux(prog, op, Seq::empty(), Seq::empty());
}

/// Law: once a run has faulted with stack underflow, appending any further
/// operation changes neither the fault nor the output produced before it.
pub proof fn lemma_underflow_persists(prog: Seq<Op>, op: Op)
    requires
        run_spec(prog) is Underflow,
    ensures
        run_spec(prog.push(op)) == run_spec(prog),
{
    lemma_underflow_aux(prog, op, Seq::empty(), Seq::empty());
}

/// Runs the program. `Ok` carries one value per executed `Dump`, in
/// execution order; `Err` carries the values dumped before the underflow.
/// The run succeeds exactly when the whole program executes without
/// underflow.
pub fn simulate_program(program: &Vec<Op>) -> (r: Result<Vec<i64>, StackUnderflow>)
    ensures
        r matches Ok(out) ==> run_spec(program@) matches SimOutcome::Halted { stack: _, out: o }
            && o == out@,
        r matches Err(e) ==> run_spec(program@) matches SimOutcome::Underflow { out: o } && o
            == e.out@,
        (r is Ok) == (run_spec(program@) is Halted),
{
    let ghost p = program@;
    let mut stack: Vec<i64> = Vec::new();
    let mut out: Vec<i64> = Vec::new();
    let mut idx: usize = 0;
    proof {
        assert(p.skip(0) =~= p);
        assert(stack@ =~= Seq::<i64>::empty());
        assert(out@ =~= Seq::<i64>::empty());
    }
    while idx < program.len()
        invariant
            idx <= p.len(),
            p == program@,
            run_spec(p) == sim_spec(p.skip(idx as int), stack@, out@),
        decreases p.len() - idx,
    {
        proof {
            assert(p.skip(idx as int)[0] == p[idx as int]);
            assert(p.skip(idx as int).skip(1) =~= p.skip(idx as int + 1));
        }
        let ghost stack0 = stack@;
        match program[idx] {
            Op::Push(v) => {
                stack.push(v);
            },
            Op::Add => {
                if stack.len() < 2 {
                    return Err(StackUnderflow { out });
                }
                let a = stack.pop().unwrap();
                let b = stack.pop().unwrap();
                stack.push(b.wrapping_add(a));
                proof {
                    assert(stack@ =~= stack0.drop_last().drop_last().push(
                        i64_specs::wrapping_add(stack0[stack0.len() - 2], stack0.last()),
                    ));
                }
            },
            Op::Sub => {
                if stack.len() < 2 {
                    return Err(StackUnderflow { out });
                }
                let a = stack.pop().unwrap();
                let b = stack.pop().unwrap();
                stack.push(b.wrapping_sub(a));
                proof {
                    assert(stack@ =~= stack0.drop_last().drop_last().push(
                        i64_specs::wrapping_sub(stack0[stack0.len() - 2], stack0.last()),
                    ));
                }
            },
            Op::Equal => {
                if stack.len() < 2 {
                    return Err(StackUnderflow { out });
                }
                let a = stack.pop().unwrap();
                let b = stack.pop().unwrap();
                stack.push(
                    if b == a {
                        1
                    } else {
                        0
                    },
                );
                proof {
                    assert(stack@ =~= stack0.drop_last().drop_last().push(
                        if stack0[stack0.len() - 2] == stack0.last() {
                            1i64
                        } else {
                            0i64
                        },
                    ));
                }
            },
            Op::Dump => {
                if stack.len() < 1 {
                    return Err(StackUnderflow { out });
                }
                let top = stack[stack.len() - 1];
                out.push(top);
            },
        }
        idx += 1;
    }
    proof {
        assert(p.skip(idx as int) =~= Seq::<Op>::empty());
    }
    Ok(out)
}

} // verus!
