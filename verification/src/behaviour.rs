//! What the fragments of a locking script are as programs of the machine,
//! and what those programs do.

use vstd::prelude::*;
use vstd::arithmetic::power2::lemma2_to64;
use crate::codec::{check_order, digest_prefix, flow_outcome, prefix_nibbles, u32_from_le_bytes,
    u32_le_bytes};
use crate::fragments::{drop_bytes, equalverify_bytes, reconstruct_step_bytes,
    reconstruct_steps_bytes, reconstruct_x_bytes, signature_check_bytes, threshold_check_bytes};
use crate::machine::{Instr, Machine, Outcome, below, encode, encode_instr, exec,
    lemma_exec_concat, lemma_exec_push, step, then_step, truth};
use crate::params::{F1_THRESHOLD, F2_THRESHOLD, FlowError, HASH_NIBBLES, valid_widths};
use crate::program::{Stage, stage_check_bytes, stage_program_bytes};
use crate::script::{OP_0, OP_1SUB, OP_ADD, OP_DEPTH, OP_DROP, OP_DUP, OP_EQUALVERIFY,
    OP_FROMALTSTACK, OP_GREATERTHAN, OP_LESSTHAN, OP_PICK, OP_SUB, OP_SWAP, OP_TOALTSTACK,
    OP_TRUE, OP_VERIFY, push_int_bytes};

verus! {

/// The comparison of the top of the stack with a bound, as a program.
pub open spec fn threshold_check_program(bound: u32, comparison: u8) -> Seq<Instr> {
    seq![Instr::Push(bound), Instr::Op(comparison), Instr::Op(OP_VERIFY)]
}

/// The bytes of a threshold check are those of its program.
pub proof fn lemma_threshold_check_encoding(bound: u32, comparison: u8)
    ensures
        threshold_check_bytes(bound, comparison) == encode(
            threshold_check_program(bound, comparison),
        ),
{
    let prog0 = Seq::<Instr>::empty();
    let prog1 = prog0.push(Instr::Push(bound));
    let prog2 = prog1.push(Instr::Op(comparison));
    let prog3 = prog2.push(Instr::Op(OP_VERIFY));
    let m = Machine { stack: Seq::empty(), alt: Seq::empty() };
    lemma_exec_push(prog0, Instr::Push(bound), m);
    lemma_exec_push(prog1, Instr::Op(comparison), m);
    lemma_exec_push(prog2, Instr::Op(OP_VERIFY), m);
    assert(prog3 =~= threshold_check_program(bound, comparison));
    assert(encode(prog3) =~= threshold_check_bytes(bound, comparison));
}

/// The check for "greater than" takes the value from the top of the stack
/// and goes on exactly when the value lies above the bound.
pub proof fn lemma_greater_than_check_runs(bound: u32, rest: Seq<int>, value: int, alt: Seq<int>)
    ensures
        exec(
            threshold_check_program(bound, OP_GREATERTHAN),
            Machine { stack: rest.push(value), alt },
        ) == (if value > bound {
            Outcome::Running(Machine { stack: rest, alt })
        } else {
            Outcome::Failed
        }),
{
    lemma_threshold_check_runs(bound, OP_GREATERTHAN, rest, value, alt);
}

/// The check for "less than" takes the value from the top of the stack and
/// goes on exactly when the value lies below the bound.
pub proof fn lemma_less_than_check_runs(bound: u32, rest: Seq<int>, value: int, alt: Seq<int>)
    ensures
        exec(
            threshold_check_program(bound, OP_LESSTHAN),
            Machine { stack: rest.push(value), alt },
        ) == (if value < bound {
            Outcome::Running(Machine { stack: rest, alt })
        } else {
            Outcome::Failed
        }),
{
    lemma_threshold_check_runs(bound, OP_LESSTHAN, rest, value, alt);
}

proof fn lemma_threshold_check_runs(
    bound: u32,
    comparison: u8,
    rest: Seq<int>,
    value: int,
    alt: Seq<int>,
)
    requires
        comparison == OP_GREATERTHAN || comparison == OP_LESSTHAN,
    ensures
        exec(threshold_check_program(bound, comparison), Machine { stack: rest.push(value), alt })
            == (if (comparison == OP_GREATERTHAN && value > bound) || (comparison == OP_LESSTHAN
            && value < bound) {
            Outcome::Running(Machine { stack: rest, alt })
        } else {
            Outcome::Failed
        }),
{
    let m = Machine { stack: rest.push(value), alt };
    let prog0 = Seq::<Instr>::empty();
    let prog1 = prog0.push(Instr::Push(bound));
    let prog2 = prog1.push(Instr::Op(comparison));
    let prog3 = prog2.push(Instr::Op(OP_VERIFY));
    lemma_exec_push(prog0, Instr::Push(bound), m);
    lemma_exec_push(prog1, Instr::Op(comparison), m);
    lemma_exec_push(prog2, Instr::Op(OP_VERIFY), m);
    assert(prog3 =~= threshold_check_program(bound, comparison));
    let s1 = rest.push(value).push(bound as int);
    assert(exec(prog1, m) == Outcome::Running(Machine { stack: s1, alt }));
    let holds = if comparison == OP_GREATERTHAN {
        value > bound
    } else {
        value < bound
    };
    assert(below(s1, 2) =~= rest);
    let s2 = rest.push(truth(holds));
    assert(exec(prog2, m) == Outcome::Running(Machine { stack: s2, alt }));
    assert(below(s2, 1) =~= rest);
}

/// `count` drops, as a program.
pub open spec fn drop_program(count: nat) -> Seq<Instr> {
    Seq::new(count, |k: int| Instr::Op(OP_DROP))
}

/// The bytes of the drops are those of their program.
pub proof fn lemma_drop_encoding(count: nat)
    ensures
        drop_bytes(count) == encode(drop_program(count)),
    decreases count,
{
    if count > 0 {
        lemma_drop_encoding((count - 1) as nat);
        assert(drop_program(count).drop_last() =~= drop_program((count - 1) as nat));
        assert(drop_bytes(count) =~= drop_bytes((count - 1) as nat) + seq![OP_DROP]);
    } else {
        assert(drop_bytes(0) =~= encode(drop_program(0)));
    }
}

/// The drops take `count` items from the top of a stack that holds as many.
pub proof fn lemma_drops_run(count: nat, m: Machine)
    requires
        count <= m.stack.len(),
    ensures
        exec(drop_program(count), m) == Outcome::Running(
            Machine { stack: below(m.stack, count as int), alt: m.alt },
        ),
    decreases count,
{
    if count > 0 {
        lemma_drops_run((count - 1) as nat, m);
        assert(drop_program(count).drop_last() =~= drop_program((count - 1) as nat));
        assert(below(below(m.stack, count - 1), 1) =~= below(m.stack, count as int));
    } else {
        assert(below(m.stack, 0) =~= m.stack);
    }
}

/// The checks of a sequence of values, as a program: each value is pushed
/// and compared with what was the top of the stack.
pub open spec fn equalverify_program(values: Seq<u8>) -> Seq<Instr>
    decreases values.len(),
{
    if values.len() == 0 {
        Seq::empty()
    } else {
        equalverify_program(values.drop_last()).push(Instr::Push(values.last() as u32)).push(
            Instr::Op(OP_EQUALVERIFY),
        )
    }
}

/// The bytes of the checks are those of their program.
pub proof fn lemma_equalverify_encoding(values: Seq<u8>)
    ensures
        equalverify_bytes(values) == encode(equalverify_program(values)),
    decreases values.len(),
{
    if values.len() > 0 {
        let m = Machine { stack: Seq::empty(), alt: Seq::empty() };
        let before = equalverify_program(values.drop_last());
        lemma_equalverify_encoding(values.drop_last());
        lemma_exec_push(before, Instr::Push(values.last() as u32), m);
        lemma_exec_push(
            before.push(Instr::Push(values.last() as u32)),
            Instr::Op(OP_EQUALVERIFY),
            m,
        );
        assert(equalverify_bytes(values) =~= encode(equalverify_program(values)));
    }
}

/// The items on top of the stack are the given nibbles, the first nibble
/// lowest.
pub open spec fn holds_on_top(stack: Seq<int>, nibbles: Seq<u8>) -> bool {
    &&& nibbles.len() <= stack.len()
    &&& forall|j: int|
        0 <= j < nibbles.len() ==> stack[stack.len() - nibbles.len() + j] == nibbles[j] as int
}

/// The check of a prefix takes as many items from the top of the stack as
/// the prefix has nibbles, and goes on exactly when those items are the
/// nibbles of the prefix, the first nibble lowest.
#[verifier::rlimit(40)]
pub proof fn lemma_prefix_check_runs(prefix: Seq<u8>, m: Machine)
    requires
        prefix.len() <= m.stack.len(),
    ensures
        exec(equalverify_program(check_order(prefix)), m) == (if holds_on_top(m.stack, prefix) {
            Outcome::Running(Machine { stack: below(m.stack, prefix.len() as int), alt: m.alt })
        } else {
            Outcome::Failed
        }),
    decreases prefix.len(),
{
    let order = check_order(prefix);
    let n = prefix.len() as int;
    let program = equalverify_program(order);
    if n == 0 {
        assert(below(m.stack, 0) =~= m.stack);
        assert(order.len() == 0);
        assert(exec(program, m) == Outcome::Running(m));
        assert(holds_on_top(m.stack, prefix));
    } else {
        let later = prefix.drop_first();
        assert(order.len() == n);
        assert(order.drop_last() =~= check_order(later));
        assert(order.last() == prefix[0]);
        lemma_prefix_check_runs(later, m);
        let before = equalverify_program(order.drop_last());
        let push = Instr::Push(prefix[0] as u32);
        let compare = Instr::Op(OP_EQUALVERIFY);
        assert(program == before.push(push).push(compare));
        lemma_exec_push(before, push, m);
        lemma_exec_push(before.push(push), compare, m);
        assert(exec(program, m) == then_step(then_step(exec(before, m), push), compare));
        let lowest = m.stack[m.stack.len() - n];
        let later_holds = holds_on_top(m.stack, later);
        assert(later_holds <==> (forall|j: int|
            1 <= j < n ==> m.stack[m.stack.len() - n + j] == prefix[j] as int)) by {
            if later_holds {
                assert forall|j: int| 1 <= j < n implies m.stack[m.stack.len() - n + j]
                    == prefix[j] as int by {
                    assert(later[j - 1] == prefix[j]);
                    assert(m.stack[m.stack.len() - later.len() + (j - 1)] == later[j - 1] as int);
                }
            } else {
                if forall|j: int| 1 <= j < n ==> m.stack[m.stack.len() - n + j] == prefix[j] as int {
                    assert forall|j: int| 0 <= j < later.len() implies m.stack[m.stack.len()
                        - later.len() + j] == later[j] as int by {
                        assert(later[j] == prefix[j + 1]);
                        assert(m.stack[m.stack.len() - n + (j + 1)] == prefix[j + 1] as int);
                    }
                    assert(false);
                }
            }
        }
        if later_holds {
            let s1 = below(m.stack, n - 1);
            assert(exec(before, m) == Outcome::Running(Machine { stack: s1, alt: m.alt }));
            assert(s1.len() == m.stack.len() - n + 1);
            assert(s1.last() == lowest);
            let s2 = s1.push(prefix[0] as int);
            assert(then_step(exec(before, m), push) == Outcome::Running(
                Machine { stack: s2, alt: m.alt },
            ));
            assert(below(s2, 2) =~= below(m.stack, n));
            if lowest == prefix[0] as int {
                assert(holds_on_top(m.stack, prefix)) by {
                    assert forall|j: int| 0 <= j < n implies m.stack[m.stack.len() - n + j]
                        == prefix[j] as int by {
                        if j >= 1 {
                        }
                    }
                }
                assert(exec(program, m) == Outcome::Running(
                    Machine { stack: below(m.stack, n), alt: m.alt },
                ));
            } else {
                assert(!holds_on_top(m.stack, prefix)) by {
                    if holds_on_top(m.stack, prefix) {
                        assert(m.stack[m.stack.len() - n + 0] == prefix[0] as int);
                    }
                }
                assert(exec(program, m) == Outcome::Failed);
            }
        } else {
            assert(!holds_on_top(m.stack, prefix)) by {
                if holds_on_top(m.stack, prefix) {
                    assert forall|j: int| 1 <= j < n implies m.stack[m.stack.len() - n + j]
                        == prefix[j] as int by {}
                }
            }
            assert(exec(before, m) == Outcome::Failed);
            assert(exec(program, m) == Outcome::Failed);
        }
    }
}

/// One round of the reconstruction, as a program.
pub open spec fn reconstruct_step_program(i: int) -> Seq<Instr> {
    seq![
        Instr::Op(OP_DEPTH),
        Instr::Op(OP_1SUB),
        Instr::Push(i as u32),
        Instr::Op(OP_SUB),
        Instr::Op(OP_PICK),
        Instr::Op(OP_FROMALTSTACK),
        Instr::Op(OP_DUP),
        Instr::Op(OP_ADD),
        Instr::Op(OP_DUP),
        Instr::Op(OP_ADD),
        Instr::Op(OP_DUP),
        Instr::Op(OP_ADD),
        Instr::Op(OP_DUP),
        Instr::Op(OP_ADD),
        Instr::Op(OP_SWAP),
        Instr::Op(OP_ADD),
        Instr::Op(OP_TOALTSTACK),
    ]
}

/// The first `rounds` rounds of the reconstruction, as a program.
pub open spec fn reconstruct_steps_program(rounds: nat) -> Seq<Instr>
    decreases rounds,
{
    if rounds == 0 {
        Seq::empty()
    } else {
        reconstruct_steps_program((rounds - 1) as nat) + reconstruct_step_program(rounds - 1)
    }
}

/// The reconstruction of a value from eight nibbles, as a program.
pub open spec fn reconstruct_program() -> Seq<Instr> {
    seq![Instr::Push(0), Instr::Op(OP_TOALTSTACK)] + reconstruct_steps_program(8)
        + seq![Instr::Op(OP_FROMALTSTACK)]
}

/// The number that a sequence of nibbles stands for, most significant
/// nibble first.
pub open spec fn accumulate(nibbles: Seq<int>) -> int
    decreases nibbles.len(),
{
    if nibbles.len() == 0 {
        0
    } else {
        16 * accumulate(nibbles.drop_last()) + nibbles.last()
    }
}

proof fn lemma_run_next(
    program: Seq<Instr>,
    instr: Instr,
    m: Machine,
    before: Machine,
    after: Machine,
)
    requires
        exec(program, m) == Outcome::Running(before),
        step(instr, before) == Outcome::Running(after),
    ensures
        exec(program.push(instr), m) == Outcome::Running(after),
{
    lemma_exec_push(program, instr, m);
}

proof fn lemma_run_double(program: Seq<Instr>, m: Machine, rest: Seq<int>, x: int, alt: Seq<int>)
    requires
        exec(program, m) == Outcome::Running(Machine { stack: rest.push(x), alt }),
    ensures
        exec(program.push(Instr::Op(OP_DUP)).push(Instr::Op(OP_ADD)), m) == Outcome::Running(
            Machine { stack: rest.push(2 * x), alt },
        ),
{
    let m0 = Machine { stack: rest.push(x), alt };
    let m1 = Machine { stack: rest.push(x).push(x), alt };
    let m2 = Machine { stack: rest.push(2 * x), alt };
    lemma_run_next(program, Instr::Op(OP_DUP), m, m0, m1);
    assert(below(m1.stack, 2) =~= rest);
    lemma_run_next(program.push(Instr::Op(OP_DUP)), Instr::Op(OP_ADD), m, m1, m2);
}

proof fn lemma_encode_number(program: Seq<Instr>, n: u32)
    ensures
        encode(program.push(Instr::Push(n))) == encode(program) + push_int_bytes(n as int),
{
    assert(program.push(Instr::Push(n)).drop_last() =~= program);
}

proof fn lemma_encode_op(program: Seq<Instr>, code: u8)
    ensures
        encode(program.push(Instr::Op(code))) == encode(program).push(code),
{
    assert(program.push(Instr::Op(code)).drop_last() =~= program);
    assert(encode(program) + seq![code] =~= encode(program).push(code));
}

/// The instructions of a round up to the point where the nibble and the
/// accumulator lie on the stack.
spec fn reconstruct_fetch_program(i: int) -> Seq<Instr> {
    Seq::<Instr>::empty().push(Instr::Op(OP_DEPTH)).push(Instr::Op(OP_1SUB)).push(
        Instr::Push(i as u32),
    ).push(Instr::Op(OP_SUB)).push(Instr::Op(OP_PICK)).push(Instr::Op(OP_FROMALTSTACK))
}

/// The instructions of a round up to the point where the accumulator has
/// been doubled four times.
spec fn reconstruct_scale_program(i: int) -> Seq<Instr> {
    reconstruct_fetch_program(i).push(Instr::Op(OP_DUP)).push(Instr::Op(OP_ADD)).push(
        Instr::Op(OP_DUP),
    ).push(Instr::Op(OP_ADD)).push(Instr::Op(OP_DUP)).push(Instr::Op(OP_ADD)).push(
        Instr::Op(OP_DUP),
    ).push(Instr::Op(OP_ADD))
}

proof fn lemma_reconstruct_step_shape(i: int)
    ensures
        reconstruct_step_program(i) == reconstruct_scale_program(i).push(Instr::Op(OP_SWAP)).push(
            Instr::Op(OP_ADD),
        ).push(Instr::Op(OP_TOALTSTACK)),
{
    assert(reconstruct_step_program(i) =~= reconstruct_scale_program(i).push(
        Instr::Op(OP_SWAP),
    ).push(Instr::Op(OP_ADD)).push(Instr::Op(OP_TOALTSTACK)));
}

#[verifier::rlimit(40)]
proof fn lemma_reconstruct_fetch_runs(i: int, stack: Seq<int>, alt: Seq<int>, acc: int)
    requires
        0 <= i < 8,
        i < stack.len(),
    ensures
        exec(reconstruct_fetch_program(i), Machine { stack, alt: alt.push(acc) })
            == Outcome::Running(Machine { stack: stack.push(stack[i]).push(acc), alt }),
{
    let s = stack;
    let len = s.len() as int;
    let full = alt.push(acc);
    let m = Machine { stack: s, alt: full };
    let prog0 = Seq::<Instr>::empty();
    let m1 = Machine { stack: s.push(len), alt: full };
    lemma_run_next(prog0, Instr::Op(OP_DEPTH), m, m, m1);
    let prog1 = prog0.push(Instr::Op(OP_DEPTH));
    assert(below(m1.stack, 1) =~= s);
    let m2 = Machine { stack: s.push(len - 1), alt: full };
    lemma_run_next(prog1, Instr::Op(OP_1SUB), m, m1, m2);
    let prog2 = prog1.push(Instr::Op(OP_1SUB));
    let m3 = Machine { stack: s.push(len - 1).push(i), alt: full };
    lemma_run_next(prog2, Instr::Push(i as u32), m, m2, m3);
    let prog3 = prog2.push(Instr::Push(i as u32));
    assert(below(m3.stack, 2) =~= s);
    let m4 = Machine { stack: s.push(len - 1 - i), alt: full };
    lemma_run_next(prog3, Instr::Op(OP_SUB), m, m3, m4);
    let prog4 = prog3.push(Instr::Op(OP_SUB));
    assert(below(m4.stack, 1) =~= s);
    let m5 = Machine { stack: s.push(s[i]), alt: full };
    lemma_run_next(prog4, Instr::Op(OP_PICK), m, m4, m5);
    let prog5 = prog4.push(Instr::Op(OP_PICK));
    assert(full.drop_last() =~= alt);
    let m6 = Machine { stack: s.push(s[i]).push(acc), alt };
    lemma_run_next(prog5, Instr::Op(OP_FROMALTSTACK), m, m5, m6);
}

proof fn lemma_reconstruct_scale_runs(i: int, stack: Seq<int>, alt: Seq<int>, acc: int)
    requires
        0 <= i < 8,
        i < stack.len(),
    ensures
        exec(reconstruct_scale_program(i), Machine { stack, alt: alt.push(acc) })
            == Outcome::Running(Machine { stack: stack.push(stack[i]).push(16 * acc), alt }),
{
    let m = Machine { stack, alt: alt.push(acc) };
    let t = stack.push(stack[i]);
    let prog6 = reconstruct_fetch_program(i);
    lemma_reconstruct_fetch_runs(i, stack, alt, acc);
    lemma_run_double(prog6, m, t, acc, alt);
    let prog8 = prog6.push(Instr::Op(OP_DUP)).push(Instr::Op(OP_ADD));
    lemma_run_double(prog8, m, t, 2 * acc, alt);
    let prog10 = prog8.push(Instr::Op(OP_DUP)).push(Instr::Op(OP_ADD));
    lemma_run_double(prog10, m, t, 4 * acc, alt);
    let prog12 = prog10.push(Instr::Op(OP_DUP)).push(Instr::Op(OP_ADD));
    lemma_run_double(prog12, m, t, 8 * acc, alt);
}

/// The bytes of a round are those of its program.
#[verifier::rlimit(40)]
pub proof fn lemma_reconstruct_step_encoding(i: int)
    requires
        0 <= i < 8,
    ensures
        reconstruct_step_bytes(i) == encode(reconstruct_step_program(i)),
{
    let prog0 = Seq::<Instr>::empty();
    let prog1 = prog0.push(Instr::Op(OP_DEPTH));
    let prog2 = prog1.push(Instr::Op(OP_1SUB));
    let prog3 = prog2.push(Instr::Push(i as u32));
    let prog4 = prog3.push(Instr::Op(OP_SUB));
    let prog5 = prog4.push(Instr::Op(OP_PICK));
    let prog6 = prog5.push(Instr::Op(OP_FROMALTSTACK));
    lemma_encode_op(prog0, OP_DEPTH);
    lemma_encode_op(prog1, OP_1SUB);
    lemma_encode_number(prog2, i as u32);
    lemma_encode_op(prog3, OP_SUB);
    lemma_encode_op(prog4, OP_PICK);
    lemma_encode_op(prog5, OP_FROMALTSTACK);
    let fetched = seq![OP_DEPTH, OP_1SUB] + push_int_bytes(i) + seq![
        OP_SUB,
        OP_PICK,
        OP_FROMALTSTACK,
    ];
    assert(encode(prog6) =~= fetched);
    let prog7 = prog6.push(Instr::Op(OP_DUP));
    let prog8 = prog7.push(Instr::Op(OP_ADD));
    let prog9 = prog8.push(Instr::Op(OP_DUP));
    let prog10 = prog9.push(Instr::Op(OP_ADD));
    let prog11 = prog10.push(Instr::Op(OP_DUP));
    let prog12 = prog11.push(Instr::Op(OP_ADD));
    let prog13 = prog12.push(Instr::Op(OP_DUP));
    let prog14 = prog13.push(Instr::Op(OP_ADD));
    lemma_encode_op(prog6, OP_DUP);
    lemma_encode_op(prog7, OP_ADD);
    lemma_encode_op(prog8, OP_DUP);
    lemma_encode_op(prog9, OP_ADD);
    lemma_encode_op(prog10, OP_DUP);
    lemma_encode_op(prog11, OP_ADD);
    lemma_encode_op(prog12, OP_DUP);
    lemma_encode_op(prog13, OP_ADD);
    let scaled = fetched + seq![OP_DUP, OP_ADD, OP_DUP, OP_ADD, OP_DUP, OP_ADD, OP_DUP, OP_ADD];
    assert(encode(prog14) =~= scaled);
    let prog15 = prog14.push(Instr::Op(OP_SWAP));
    let prog16 = prog15.push(Instr::Op(OP_ADD));
    let prog17 = prog16.push(Instr::Op(OP_TOALTSTACK));
    lemma_encode_op(prog14, OP_SWAP);
    lemma_encode_op(prog15, OP_ADD);
    lemma_encode_op(prog16, OP_TOALTSTACK);
    assert(encode(prog17) =~= scaled + seq![OP_SWAP, OP_ADD, OP_TOALTSTACK]);
    assert(prog14 == reconstruct_scale_program(i));
    lemma_reconstruct_step_shape(i);
    assert(reconstruct_step_bytes(i) =~= scaled + seq![OP_SWAP, OP_ADD, OP_TOALTSTACK]);
}

/// A round of the reconstruction leaves the stack as it is and turns the
/// accumulator `acc` on the other stack into `16 * acc` plus the item that
/// lies `i` places above the bottom of the stack.
pub proof fn lemma_reconstruct_step_runs(i: int, stack: Seq<int>, alt: Seq<int>, acc: int)
    requires
        0 <= i < 8,
        i < stack.len(),
    ensures
        exec(reconstruct_step_program(i), Machine { stack, alt: alt.push(acc) })
            == Outcome::Running(Machine { stack, alt: alt.push(16 * acc + stack[i]) }),
{
    let s = stack;
    let m = Machine { stack: s, alt: alt.push(acc) };
    let t = s.push(s[i]);
    let prog14 = reconstruct_scale_program(i);
    lemma_reconstruct_scale_runs(i, stack, alt, acc);
    lemma_reconstruct_step_shape(i);
    let m14 = Machine { stack: t.push(16 * acc), alt };
    assert(below(m14.stack, 2) =~= s);
    let m15 = Machine { stack: s.push(16 * acc).push(s[i]), alt };
    lemma_run_next(prog14, Instr::Op(OP_SWAP), m, m14, m15);
    let prog15 = prog14.push(Instr::Op(OP_SWAP));
    assert(below(m15.stack, 2) =~= s);
    let m16 = Machine { stack: s.push(16 * acc + s[i]), alt };
    lemma_run_next(prog15, Instr::Op(OP_ADD), m, m15, m16);
    let prog16 = prog15.push(Instr::Op(OP_ADD));
    assert(below(m16.stack, 1) =~= s);
    let m17 = Machine { stack: s, alt: alt.push(16 * acc + s[i]) };
    lemma_run_next(prog16, Instr::Op(OP_TOALTSTACK), m, m16, m17);
}

/// After `rounds` rounds from an accumulator of zero, the accumulator is the
/// number that the `rounds` lowest items of the stack stand for.
pub proof fn lemma_reconstruct_steps_run(rounds: nat, stack: Seq<int>, alt: Seq<int>)
    requires
        rounds <= 8,
        rounds <= stack.len(),
    ensures
        exec(reconstruct_steps_program(rounds), Machine { stack, alt: alt.push(0) })
            == Outcome::Running(
            Machine { stack, alt: alt.push(accumulate(stack.take(rounds as int))) },
        ),
        reconstruct_steps_bytes(rounds) == encode(reconstruct_steps_program(rounds)),
    decreases rounds,
{
    let m = Machine { stack, alt: alt.push(0) };
    if rounds == 0 {
        assert(stack.take(0).len() == 0);
    } else {
        let earlier = (rounds - 1) as nat;
        lemma_reconstruct_steps_run(earlier, stack, alt);
        let acc = accumulate(stack.take(earlier as int));
        lemma_reconstruct_step_runs(rounds - 1, stack, alt, acc);
        lemma_reconstruct_step_encoding(rounds - 1);
        lemma_exec_concat(
            reconstruct_steps_program(earlier),
            reconstruct_step_program(rounds - 1),
            m,
        );
        assert(stack.take(rounds as int).drop_last() =~= stack.take(earlier as int));
        assert(stack.take(rounds as int).last() == stack[rounds - 1]);
    }
}

/// The reconstruction pushes the number that the eight lowest items of the
/// stack stand for, the lowest being the most significant, and changes
/// nothing else. Its bytes are those of its program.
pub proof fn lemma_reconstruct_runs(m: Machine)
    requires
        m.stack.len() >= 8,
    ensures
        exec(reconstruct_program(), m) == Outcome::Running(
            Machine { stack: m.stack.push(accumulate(m.stack.take(8))), alt: m.alt },
        ),
        reconstruct_x_bytes() == encode(reconstruct_program()),
{
    let start = seq![Instr::Push(0), Instr::Op(OP_TOALTSTACK)];
    let end = seq![Instr::Op(OP_FROMALTSTACK)];
    let acc = accumulate(m.stack.take(8));
    let prog0 = Seq::<Instr>::empty();
    let m1 = Machine { stack: m.stack.push(0), alt: m.alt };
    lemma_run_next(prog0, Instr::Push(0), m, m, m1);
    assert(below(m1.stack, 1) =~= m.stack);
    let m2 = Machine { stack: m.stack, alt: m.alt.push(0) };
    lemma_run_next(prog0.push(Instr::Push(0)), Instr::Op(OP_TOALTSTACK), m, m1, m2);
    assert(prog0.push(Instr::Push(0)).push(Instr::Op(OP_TOALTSTACK)) =~= start);
    lemma_encode_number(prog0, 0);
    lemma_encode_op(prog0.push(Instr::Push(0)), OP_TOALTSTACK);
    assert(encode(start) =~= seq![OP_0, OP_TOALTSTACK]);
    lemma_reconstruct_steps_run(8, m.stack, m.alt);
    lemma_exec_concat(start, reconstruct_steps_program(8), m);
    let m3 = Machine { stack: m.stack, alt: m.alt.push(acc) };
    let m4 = Machine { stack: m.stack.push(acc), alt: m.alt };
    assert(m.alt.push(acc).drop_last() =~= m.alt);
    lemma_run_next(prog0, Instr::Op(OP_FROMALTSTACK), m3, m3, m4);
    assert(prog0.push(Instr::Op(OP_FROMALTSTACK)) =~= end);
    lemma_encode_op(prog0, OP_FROMALTSTACK);
    assert(encode(end) =~= seq![OP_FROMALTSTACK]);
    lemma_exec_concat(start + reconstruct_steps_program(8), end, m);
}

/// The bytes of the reconstruction are those of its program.
pub proof fn lemma_reconstruct_encoding()
    ensures
        reconstruct_x_bytes() == encode(reconstruct_program()),
{
    lemma_reconstruct_runs(Machine { stack: Seq::new(8, |i: int| 0int), alt: Seq::empty() });
}

/// What a stage does with the witness before the digest is computed: it
/// reconstructs the value and checks it against the stage's bound.
pub open spec fn stage_head_program(stage: Stage) -> Seq<Instr> {
    reconstruct_program() + (match stage {
        Stage::LowerBound => threshold_check_program(F1_THRESHOLD, OP_GREATERTHAN),
        Stage::UpperBound => threshold_check_program(F2_THRESHOLD, OP_LESSTHAN),
    })
}

/// What a stage does with the digest: it drops all but the first nibbles,
/// as many as the prefix has, checks those against the prefix and ends in
/// success.
pub open spec fn stage_tail_program(prefix: Seq<u8>) -> Seq<Instr>
    recommends
        prefix.len() <= HASH_NIBBLES,
{
    drop_program((HASH_NIBBLES - prefix.len()) as nat) + equalverify_program(check_order(prefix))
        + seq![Instr::Op(OP_TRUE)]
}

/// Whether a value passes the check of a stage.
pub open spec fn passes_stage(stage: Stage, value: int) -> bool {
    match stage {
        Stage::LowerBound => value > F1_THRESHOLD,
        Stage::UpperBound => value < F2_THRESHOLD,
    }
}

/// The bytes of a stage's locking script are the signature check, the bytes
/// of the head program, the hash program and the bytes of the tail program.
#[verifier::rlimit(40)]
pub proof fn lemma_stage_program_encoding(
    stage: Stage,
    key: Seq<u8>,
    prefix: Seq<u8>,
    hash_program: Seq<u8>,
)
    requires
        prefix.len() <= HASH_NIBBLES,
    ensures
        stage_program_bytes(stage, key, prefix, hash_program) == signature_check_bytes(key)
            + encode(stage_head_program(stage)) + hash_program + encode(
            stage_tail_program(prefix),
        ),
{
    let m = Machine { stack: Seq::new(8, |i: int| 0int), alt: Seq::empty() };
    let check = match stage {
        Stage::LowerBound => threshold_check_program(F1_THRESHOLD, OP_GREATERTHAN),
        Stage::UpperBound => threshold_check_program(F2_THRESHOLD, OP_LESSTHAN),
    };
    lemma_reconstruct_runs(m);
    lemma_threshold_check_encoding(F1_THRESHOLD, OP_GREATERTHAN);
    lemma_threshold_check_encoding(F2_THRESHOLD, OP_LESSTHAN);
    lemma_exec_concat(reconstruct_program(), check, m);
    assert(encode(stage_head_program(stage)) == reconstruct_x_bytes() + stage_check_bytes(stage));
    let drops = drop_program((HASH_NIBBLES - prefix.len()) as nat);
    let checks = equalverify_program(check_order(prefix));
    let success = seq![Instr::Op(OP_TRUE)];
    lemma_drop_encoding((HASH_NIBBLES - prefix.len()) as nat);
    lemma_equalverify_encoding(check_order(prefix));
    lemma_exec_concat(drops, checks, m);
    lemma_exec_concat(drops + checks, success, m);
    lemma_exec_push(Seq::empty(), Instr::Op(OP_TRUE), m);
    assert(Seq::<Instr>::empty().push(Instr::Op(OP_TRUE)) =~= success);
    assert(encode(success) =~= seq![OP_TRUE]);
    assert(stage_program_bytes(stage, key, prefix, hash_program) =~= signature_check_bytes(key)
        + encode(stage_head_program(stage)) + hash_program + encode(stage_tail_program(prefix)));
}

/// The head of a stage goes on, with both stacks as they were, exactly when
/// the value that the eight lowest items of the stack stand for passes the
/// stage's check; otherwise the script is rejected.
pub proof fn lemma_stage_head_runs(stage: Stage, m: Machine)
    requires
        m.stack.len() >= 8,
    ensures
        exec(stage_head_program(stage), m) == (if passes_stage(
            stage,
            accumulate(m.stack.take(8)),
        ) {
            Outcome::Running(m)
        } else {
            Outcome::Failed
        }),
{
    let value = accumulate(m.stack.take(8));
    let check = match stage {
        Stage::LowerBound => threshold_check_program(F1_THRESHOLD, OP_GREATERTHAN),
        Stage::UpperBound => threshold_check_program(F2_THRESHOLD, OP_LESSTHAN),
    };
    lemma_reconstruct_runs(m);
    lemma_exec_concat(reconstruct_program(), check, m);
    lemma_greater_than_check_runs(F1_THRESHOLD, m.stack, value, m.alt);
    lemma_less_than_check_runs(F2_THRESHOLD, m.stack, value, m.alt);
}

/// The tail of a stage, run on a stack whose 64 topmost items are the
/// nibbles of a digest, ends with a true value in their place exactly when
/// the first nibbles of the digest are those of the prefix; otherwise the
/// script is rejected.
#[verifier::rlimit(40)]
pub proof fn lemma_stage_tail_runs(prefix: Seq<u8>, base: Seq<int>, digest: Seq<int>, alt: Seq<int>)
    requires
        prefix.len() <= HASH_NIBBLES,
        digest.len() == HASH_NIBBLES,
    ensures
        exec(stage_tail_program(prefix), Machine { stack: base + digest, alt }) == (if forall|
            j: int,
        |
            0 <= j < prefix.len() ==> digest[j] == prefix[j] as int {
            Outcome::Running(Machine { stack: base.push(1), alt })
        } else {
            Outcome::Failed
        }),
{
    let n = prefix.len() as int;
    let m = Machine { stack: base + digest, alt };
    let count = (HASH_NIBBLES - prefix.len()) as nat;
    let drops = drop_program(count);
    let checks = equalverify_program(check_order(prefix));
    let success = seq![Instr::Op(OP_TRUE)];
    let kept = below(m.stack, count as int);
    let m1 = Machine { stack: kept, alt };
    lemma_drops_run(count, m);
    lemma_prefix_check_runs(prefix, m1);
    lemma_exec_concat(drops, checks, m);
    lemma_exec_concat(drops + checks, success, m);
    assert(kept.len() == base.len() + n);
    assert(holds_on_top(kept, prefix) <==> (forall|j: int|
        0 <= j < n ==> digest[j] == prefix[j] as int)) by {
        assert forall|j: int| 0 <= j < n implies kept[kept.len() - n + j] == digest[j] by {
            assert(kept[base.len() + j] == m.stack[base.len() + j]);
        }
        if holds_on_top(kept, prefix) {
            assert forall|j: int| 0 <= j < n implies digest[j] == prefix[j] as int by {
                assert(kept[kept.len() - n + j] == prefix[j] as int);
            }
        }
    }
    assert(below(kept, n) =~= base);
    let m2 = Machine { stack: base, alt };
    lemma_exec_push(Seq::empty(), Instr::Op(OP_TRUE), m2);
    assert(Seq::<Instr>::empty().push(Instr::Op(OP_TRUE)) =~= success);
}

/// The eight nibbles of a limb as the witness holds them, most significant
/// first.
pub open spec fn limb_nibbles(x: u32) -> Seq<int> {
    seq![
        (x / 0x1000_0000 % 16) as int,
        (x / 0x100_0000 % 16) as int,
        (x / 0x10_0000 % 16) as int,
        (x / 0x1_0000 % 16) as int,
        (x / 0x1000 % 16) as int,
        (x / 0x100 % 16) as int,
        (x / 0x10 % 16) as int,
        (x % 16) as int,
    ]
}

proof fn lemma_accumulate_push(nibbles: Seq<int>, last: int)
    ensures
        accumulate(nibbles.push(last)) == 16 * accumulate(nibbles) + last,
{
    assert(nibbles.push(last).drop_last() =~= nibbles);
}

/// The nibbles of a limb stand for the limb.
#[verifier::rlimit(40)]
pub proof fn lemma_accumulate_limb(x: u32)
    ensures
        accumulate(limb_nibbles(x)) == x,
{
    let n0 = x / 0x1000_0000 % 16;
    let n1 = x / 0x100_0000 % 16;
    let n2 = x / 0x10_0000 % 16;
    let n3 = x / 0x1_0000 % 16;
    let n4 = x / 0x1000 % 16;
    let n5 = x / 0x100 % 16;
    let n6 = x / 0x10 % 16;
    let n7 = x % 16;
    let s0 = Seq::<int>::empty();
    let s1 = s0.push(n0 as int);
    let s2 = s1.push(n1 as int);
    let s3 = s2.push(n2 as int);
    let s4 = s3.push(n3 as int);
    let s5 = s4.push(n4 as int);
    let s6 = s5.push(n5 as int);
    let s7 = s6.push(n6 as int);
    let s8 = s7.push(n7 as int);
    assert(s8 =~= limb_nibbles(x));
    lemma_accumulate_push(s0, n0 as int);
    lemma_accumulate_push(s1, n1 as int);
    lemma_accumulate_push(s2, n2 as int);
    lemma_accumulate_push(s3, n3 as int);
    lemma_accumulate_push(s4, n4 as int);
    lemma_accumulate_push(s5, n5 as int);
    lemma_accumulate_push(s6, n6 as int);
    lemma_accumulate_push(s7, n7 as int);
    assert(accumulate(s0) == 0);
    assert(x / 0x1000_0000 % 16 == x / 0x1000_0000) by (bit_vector);
    assert(16 * (x / 0x1000_0000) + x / 0x100_0000 % 16 == x / 0x100_0000) by (bit_vector);
    assert(16 * (x / 0x100_0000) + x / 0x10_0000 % 16 == x / 0x10_0000) by (bit_vector);
    assert(16 * (x / 0x10_0000) + x / 0x1_0000 % 16 == x / 0x1_0000) by (bit_vector);
    assert(16 * (x / 0x1_0000) + x / 0x1000 % 16 == x / 0x1000) by (bit_vector);
    assert(16 * (x / 0x1000) + x / 0x100 % 16 == x / 0x100) by (bit_vector);
    assert(16 * (x / 0x100) + x / 0x10 % 16 == x / 0x10) by (bit_vector);
    assert(16 * (x / 0x10) + x % 16 == x) by (bit_vector);
    assert(accumulate(s1) == x / 0x1000_0000);
    assert(accumulate(s2) == x / 0x100_0000);
    assert(accumulate(s3) == x / 0x10_0000);
    assert(accumulate(s4) == x / 0x1_0000);
    assert(accumulate(s5) == x / 0x1000);
    assert(accumulate(s6) == x / 0x100);
    assert(accumulate(s7) == x / 0x10);
}

/// The 64 nibbles of a digest as the hash program leaves them on the stack:
/// byte by byte, the high nibble below the low one.
pub open spec fn digest_nibbles(digest: Seq<u8>) -> Seq<int>
    recommends
        digest.len() == 32,
{
    Seq::new(
        64,
        |j: int|
            if j % 2 == 0 {
                (digest[j / 2] / 16) as int
            } else {
                (digest[j / 2] % 16) as int
            },
    )
}

/// The prefix made from the index that a digest leads to is the beginning of
/// the digest's nibbles: what the search commits to is what the script finds
/// on the stack.
#[verifier::rlimit(40)]
pub proof fn lemma_prefix_matches_digest(digest: Seq<u8>, b_bits: nat)
    requires
        digest.len() == 32,
        b_bits <= 32,
        b_bits % 8 == 0,
    ensures
        forall|j: int|
            0 <= j < b_bits / 4 ==> digest_nibbles(digest)[j] == prefix_nibbles(
                digest_prefix(digest, b_bits) as u32,
                b_bits,
            )[j] as int,
{
    lemma2_to64();
    let word = u32_from_le_bytes(digest);
    let index = digest_prefix(digest, b_bits) as u32;
    let bytes = u32_le_bytes(index);
    let d0 = digest[0];
    let d1 = digest[1];
    let d2 = digest[2];
    let d3 = digest[3];
    assert(word < 0x1_0000_0000);
    let w = word as u32;
    if b_bits == 8 {
        assert(index == w % 0x100);
        assert((w % 0x100) % 256 == d0) by (bit_vector)
            requires
                w == d0 as u32 + 0x100u32 * (d1 as u32) + 0x1_0000u32 * (d2 as u32) + 0x100_0000u32
                    * (d3 as u32),
        ;
    } else if b_bits == 16 {
        assert(index == w % 0x1_0000);
        assert((w % 0x1_0000) % 256 == d0 && (w % 0x1_0000) / 0x100 % 256 == d1) by (bit_vector)
            requires
                w == d0 as u32 + 0x100u32 * (d1 as u32) + 0x1_0000u32 * (d2 as u32) + 0x100_0000u32
                    * (d3 as u32),
        ;
    } else if b_bits == 24 {
        assert(index == w % 0x100_0000);
        assert((w % 0x100_0000) % 256 == d0 && (w % 0x100_0000) / 0x100 % 256 == d1 && (w
            % 0x100_0000) / 0x1_0000 % 256 == d2) by (bit_vector)
            requires
                w == d0 as u32 + 0x100u32 * (d1 as u32) + 0x1_0000u32 * (d2 as u32) + 0x100_0000u32
                    * (d3 as u32),
        ;
    } else if b_bits == 32 {
        assert(word % 0x1_0000_0000 == word);
        assert(index == w);
        assert(w % 256 == d0 && w / 0x100 % 256 == d1 && w / 0x1_0000 % 256 == d2 && w
            / 0x100_0000 % 256 == d3) by (bit_vector)
            requires
                w == d0 as u32 + 0x100u32 * (d1 as u32) + 0x1_0000u32 * (d2 as u32) + 0x100_0000u32
                    * (d3 as u32),
        ;
    }
    assert forall|j: int| 0 <= j < b_bits / 4 implies digest_nibbles(digest)[j] == prefix_nibbles(
        index,
        b_bits,
    )[j] as int by {
        assert(bytes[j / 2] == digest[j / 2]);
    }
}

/// A stage from the witness to the end, for any hash program that turns the
/// witness into the nibbles of a digest: the script ends with a single true
/// value exactly when the value in the eight lowest items of the witness
/// passes the stage's check and the digest begins with the prefix; otherwise
/// it is rejected.
pub proof fn lemma_stage_runs(
    stage: Stage,
    prefix: Seq<u8>,
    hash_program: Seq<Instr>,
    witness: Seq<int>,
    digest: Seq<int>,
    alt: Seq<int>,
)
    requires
        prefix.len() <= HASH_NIBBLES,
        witness.len() >= 8,
        digest.len() == HASH_NIBBLES,
        exec(hash_program, Machine { stack: witness, alt }) == Outcome::Running(
            Machine { stack: digest, alt },
        ),
    ensures
        exec(
            stage_head_program(stage) + hash_program + stage_tail_program(prefix),
            Machine { stack: witness, alt },
        ) == (if passes_stage(stage, accumulate(witness.take(8))) && (forall|j: int|
            0 <= j < prefix.len() ==> digest[j] == prefix[j] as int) {
            Outcome::Running(Machine { stack: seq![1int], alt })
        } else {
            Outcome::Failed
        }),
{
    let m = Machine { stack: witness, alt };
    let head = stage_head_program(stage);
    let tail = stage_tail_program(prefix);
    lemma_stage_head_runs(stage, m);
    lemma_exec_concat(head, hash_program, m);
    lemma_exec_concat(head + hash_program, tail, m);
    lemma_stage_tail_runs(prefix, Seq::empty(), digest, alt);
    assert(Seq::<int>::empty() + digest =~= digest);
    assert(Seq::<int>::empty().push(1) =~= seq![1int]);
}

/// The witness of an input and a nonce as the stack holds it: the nibbles of
/// the input, of the low half of the nonce and of its high half.
pub open spec fn witness_nibbles(input: u32, nonce: u64) -> Seq<int> {
    limb_nibbles(input) + limb_nibbles((nonce % 0x1_0000_0000) as u32) + limb_nibbles(
        (nonce / 0x1_0000_0000) as u32,
    )
}

/// A stage that was built for the index that a digest leads to, run on the
/// witness of an input: for any hash program that turns that witness into
/// the nibbles of that digest, the script ends with a single true value
/// exactly when the input passes the stage's check, and is rejected
/// otherwise.
pub proof fn lemma_routed_witness_runs(
    stage: Stage,
    input: u32,
    nonce: u64,
    digest: Seq<u8>,
    b_bits: nat,
    l_bits: nat,
    index: u32,
    hash_program: Seq<Instr>,
    alt: Seq<int>,
)
    requires
        valid_widths(b_bits, l_bits),
        digest.len() == 32,
        flow_outcome(digest, b_bits, l_bits) == Ok::<u32, FlowError>(index),
        exec(hash_program, Machine { stack: witness_nibbles(input, nonce), alt })
            == Outcome::Running(Machine { stack: digest_nibbles(digest), alt }),
    ensures
        exec(
            stage_head_program(stage) + hash_program + stage_tail_program(
                prefix_nibbles(index, b_bits),
            ),
            Machine { stack: witness_nibbles(input, nonce), alt },
        ) == (if passes_stage(stage, input as int) {
            Outcome::Running(Machine { stack: seq![1int], alt })
        } else {
            Outcome::Failed
        }),
{
    let witness = witness_nibbles(input, nonce);
    let prefix = prefix_nibbles(index, b_bits);
    assert(witness.take(8) =~= limb_nibbles(input));
    lemma_accumulate_limb(input);
    lemma_prefix_matches_digest(digest, b_bits);
    lemma_stage_runs(stage, prefix, hash_program, witness, digest_nibbles(digest), alt);
}

/// A program that stands behind a signature check, run from a state of the
/// machine: the check takes the topmost item and rejects the script unless
/// that item is among `accepted`, the signatures that verify for the key of
/// the check; then the program runs.
pub open spec fn exec_behind_signature(
    accepted: Set<int>,
    program: Seq<Instr>,
    m: Machine,
) -> Outcome {
    if m.stack.len() >= 1 && accepted.contains(m.stack.last()) {
        exec(program, Machine { stack: below(m.stack, 1), alt: m.alt })
    } else {
        Outcome::Failed
    }
}

/// A whole stage, run on a witness with a signature on top: the script ends
/// with a single true value exactly when the signature verifies, the value
/// in the eight lowest items of the witness passes the stage's check and the
/// digest begins with the prefix. Whenever one of the three does not hold,
/// it is rejected, whatever holds of the other two.
pub proof fn lemma_locked_stage_runs(
    accepted: Set<int>,
    stage: Stage,
    prefix: Seq<u8>,
    hash_program: Seq<Instr>,
    witness: Seq<int>,
    signature: int,
    digest: Seq<int>,
    alt: Seq<int>,
)
    requires
        prefix.len() <= HASH_NIBBLES,
        witness.len() >= 8,
        digest.len() == HASH_NIBBLES,
        exec(hash_program, Machine { stack: witness, alt }) == Outcome::Running(
            Machine { stack: digest, alt },
        ),
    ensures
        exec_behind_signature(
            accepted,
            stage_head_program(stage) + hash_program + stage_tail_program(prefix),
            Machine { stack: witness.push(signature), alt },
        ) == (if accepted.contains(signature) && passes_stage(stage, accumulate(witness.take(8)))
            && (forall|j: int| 0 <= j < prefix.len() ==> digest[j] == prefix[j] as int) {
            Outcome::Running(Machine { stack: seq![1int], alt })
        } else {
            Outcome::Failed
        }),
{
    assert(below(witness.push(signature), 1) =~= witness);
    lemma_stage_runs(stage, prefix, hash_program, witness, digest, alt);
}

} // verus!
