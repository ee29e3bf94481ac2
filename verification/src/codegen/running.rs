//! How a function body runs: the integer instructions, the stack slots and
//! the branches, one instruction at a time; and what the code of an
//! integer power comes to when it runs.

use crate::codegen::ir::{BlockLabel, Instruction, IntOperation, Operand, Target, ValueKind};
use crate::codegen::meaning::{int_operation_meaning, rank, wrap};
use crate::codegen::rules::{int_power, State};
use crate::codegen::targets::{labels, lemma_labels_push};
use vstd::arithmetic::div_mod::{lemma_fundamental_div_mod, lemma_mod_multiples_vanish};
use vstd::arithmetic::power::pow;
use vstd::prelude::*;

verus! {

/// A function body at one moment of its run.
pub struct Run {
    /// The index of the instruction that runs next.
    pub at: int,
    /// What the integer instructions that have run gave, by their index.
    pub gave: Map<int, i64>,
    /// What the comparisons that have run gave, by their index.
    pub bits: Map<int, bool>,
    /// What the integer slots hold, by the index of the `Alloca` that made
    /// them.
    pub held: Map<int, i64>,
}

/// The integer that an operand holds at a moment.
pub open spec fn holds(run: Run, operand: Operand) -> Option<i64> {
    match operand {
        Operand::Integer(v) => Some(v),
        Operand::Result(i) => if run.gave.dom().contains(i as int) {
            Some(run.gave[i as int])
        } else {
            None
        },
        _ => None,
    }
}

/// The bit that an operand holds at a moment.
pub open spec fn holds_bit(run: Run, operand: Operand) -> Option<bool> {
    match operand {
        Operand::Result(i) => if run.bits.dom().contains(i as int) {
            Some(run.bits[i as int])
        } else {
            None
        },
        _ => None,
    }
}

/// The instruction at index `j` is a label and starts the block with the
/// number `ordinal`, counted from one.
pub open spec fn starts_block(body: Seq<Instruction>, j: int, ordinal: int) -> bool {
    0 <= j < body.len() && body[j] is Label && labels(body.subrange(0, j + 1)) == ordinal
}

/// Where a branch at index `at` goes: to the label of the block that
/// `target` names, counted from the block that the branch stands in.
pub open spec fn destination(body: Seq<Instruction>, at: int, target: Target) -> int {
    let here = labels(body.subrange(0, at + 1)) as int;
    let ordinal = match target {
        Target::Ahead(ahead) => here + ahead,
        Target::Back(back) => here - back,
    };
    choose|j: int| starts_block(body, j, ordinal)
}

/// The moment after one instruction has run; nothing where the instruction
/// is none of those that are modelled, or reads what is not there.
pub open spec fn step(body: Seq<Instruction>, run: Run) -> Option<Run> {
    if !(0 <= run.at < body.len()) {
        None
    } else {
        let next = Run { at: run.at + 1, ..run };
        match body[run.at] {
            Instruction::Label { .. } | Instruction::Alloca { .. } => Some(next),
            Instruction::Store { slot: Operand::Result(s), value } => match holds(run, value) {
                Some(v) => Some(Run { held: run.held.insert(s as int, v), ..next }),
                None => None,
            },
            Instruction::Load { slot: Operand::Result(s), .. } => if run.held.dom().contains(
                s as int,
            ) {
                Some(Run { gave: run.gave.insert(run.at, run.held[s as int]), ..next })
            } else {
                None
            },
            Instruction::IntBinary { operation, left, right } => match (
                holds(run, left),
                holds(run, right),
            ) {
                (Some(l), Some(r)) => match int_operation_meaning(operation, l, r) {
                    Some(v) => Some(Run { gave: run.gave.insert(run.at, v), ..next }),
                    None => None,
                },
                _ => None,
            },
            Instruction::IntGreater { left, right } => match (holds(run, left), holds(run, right)) {
                (Some(l), Some(r)) => Some(Run { bits: run.bits.insert(run.at, l > r), ..next }),
                _ => None,
            },
            Instruction::IntEqual { left, right } => match (holds(run, left), holds(run, right)) {
                (Some(l), Some(r)) => Some(Run { bits: run.bits.insert(run.at, l == r), ..next }),
                _ => None,
            },
            Instruction::Branch { target } => Some(
                Run { at: destination(body, run.at, target), ..run },
            ),
            Instruction::CondBranch { condition, then_target, else_target } => match holds_bit(
                run,
                condition,
            ) {
                Some(taken) => Some(
                    Run {
                        at: destination(
                            body,
                            run.at,
                            if taken {
                                then_target
                            } else {
                                else_target
                            },
                        ),
                        ..run
                    },
                ),
                None => None,
            },
            _ => None,
        }
    }
}

/// The moment after `steps` instructions have run.
pub open spec fn run_for(body: Seq<Instruction>, run: Run, steps: nat) -> Option<Run>
    decreases steps,
{
    if steps == 0 {
        Some(run)
    } else {
        match step(body, run) {
            Some(next) => run_for(body, next, (steps - 1) as nat),
            None => None,
        }
    }
}

/// Running some steps and then some more is running them all.
pub proof fn lemma_run_on(body: Seq<Instruction>, run: Run, first: nat, then: nat)
    ensures
        run_for(body, run, first + then) == match run_for(body, run, first) {
            Some(middle) => run_for(body, middle, then),
            None => None,
        },
    decreases first,
{
    if first > 0 {
        match step(body, run) {
            Some(next) => {
                lemma_run_on(body, next, (first - 1) as nat, then);
                assert(first + then - 1 == (first - 1) as nat + then);
            },
            None => {},
        }
    }
}

/// The labels up to an instruction, and with it.
proof fn lemma_labels_next(body: Seq<Instruction>, j: int)
    requires
        0 <= j < body.len(),
    ensures
        labels(body.subrange(0, j + 1)) == labels(body.subrange(0, j)) + if body[j] is Label {
            1nat
        } else {
            0nat
        },
{
    assert(body.subrange(0, j + 1) =~= body.subrange(0, j).push(body[j]));
    lemma_labels_push(body.subrange(0, j), body[j]);
}

/// A longer start of a body holds no fewer labels.
proof fn lemma_labels_grow(body: Seq<Instruction>, i: int, j: int)
    requires
        0 <= i <= j <= body.len(),
    ensures
        labels(body.subrange(0, i)) <= labels(body.subrange(0, j)),
    decreases j - i,
{
    if i < j {
        lemma_labels_next(body, j - 1);
        lemma_labels_grow(body, i, j - 1);
    }
}

/// A block has one label: a branch that names a block that exists goes to
/// the label that starts it.
pub proof fn lemma_destination(body: Seq<Instruction>, at: int, target: Target, j: int)
    requires
        starts_block(
            body,
            j,
            match target {
                Target::Ahead(ahead) => labels(body.subrange(0, at + 1)) + ahead,
                Target::Back(back) => labels(body.subrange(0, at + 1)) - back,
            },
        ),
    ensures
        destination(body, at, target) == j,
{
    let ordinal: int = match target {
        Target::Ahead(ahead) => labels(body.subrange(0, at + 1)) + ahead,
        Target::Back(back) => labels(body.subrange(0, at + 1)) - back,
    };
    let found = choose|k: int| starts_block(body, k, ordinal);
    if found < j {
        lemma_labels_next(body, j);
        lemma_labels_grow(body, found + 1, j);
    } else if j < found {
        lemma_labels_next(body, found);
        lemma_labels_grow(body, j + 1, found);
    }
}

/// The code of an integer power, for a body that holds `n` instructions
/// before it.
pub open spec fn power_code(n: int, left: Operand, right: Operand) -> Seq<Instruction> {
    let result = Operand::Result(n as usize);
    let count = Operand::Result((n + 2) as usize);
    seq![
        Instruction::Alloca { kind: ValueKind::Int },
        Instruction::Store { slot: result, value: Operand::Integer(1) },
        Instruction::Alloca { kind: ValueKind::Int },
        Instruction::Store { slot: count, value: right },
        Instruction::Branch { target: Target::Ahead(1) },
        Instruction::Label { label: BlockLabel::PowerCheck },
        Instruction::Load { slot: count, kind: ValueKind::Int },
        Instruction::IntGreater {
            left: Operand::Result((n + 6) as usize),
            right: Operand::Integer(0),
        },
        Instruction::CondBranch {
            condition: Operand::Result((n + 7) as usize),
            then_target: Target::Ahead(1),
            else_target: Target::Ahead(2),
        },
        Instruction::Label { label: BlockLabel::PowerStep },
        Instruction::Load { slot: result, kind: ValueKind::Int },
        Instruction::IntBinary {
            operation: IntOperation::Multiply,
            left: Operand::Result((n + 10) as usize),
            right: left,
        },
        Instruction::Store { slot: result, value: Operand::Result((n + 11) as usize) },
        Instruction::Load { slot: count, kind: ValueKind::Int },
        Instruction::IntBinary {
            operation: IntOperation::Subtract,
            left: Operand::Result((n + 13) as usize),
            right: Operand::Integer(1),
        },
        Instruction::Store { slot: count, value: Operand::Result((n + 14) as usize) },
        Instruction::Branch { target: Target::Back(1) },
        Instruction::Label { label: BlockLabel::PowerDone },
        Instruction::Load { slot: result, kind: ValueKind::Int },
    ]
}

/// What the lowering of an integer power adds to a body.
pub proof fn lemma_power_code(st: State, left: Operand, right: Operand)
    requires
        st.body.len() + 19 <= usize::MAX,
    ensures
        int_power(st, left, right).0.body == st.body + power_code(
            st.body.len() as int,
            left,
            right,
        ),
        int_power(st, left, right).1.operand == Operand::Result((st.body.len() + 18) as usize),
{
    reveal(int_power);
    assert(int_power(st, left, right).0.body =~= st.body + power_code(
        st.body.len() as int,
        left,
        right,
    ));
}

/// `r` multiplied `k` times by `a`, in 64 bits.
pub open spec fn times(r: i64, a: i64, k: nat) -> i64
    decreases k,
{
    if k == 0 {
        r
    } else {
        times(wrap(r * a), a, (k - 1) as nat)
    }
}

/// The number of instructions that run from the test of the count to the
/// end of the power, where the count is `k`.
pub open spec fn power_steps(k: int) -> nat
    decreases k,
{
    if k <= 0 {
        6
    } else {
        12 + power_steps(k - 1)
    }
}

/// A body that ends with the code of a power of `left` and `right`.
pub open spec fn ends_in_power(body: Seq<Instruction>, n: int, left: Operand, right: Operand) -> bool {
    &&& 0 <= n
    &&& n + 19 <= usize::MAX
    &&& body.len() == n + 19
    &&& body.subrange(n, n + 19) == power_code(n, left, right)
    &&& rank(left) <= n
}

/// The run stands at the test of the count: the result so far is `r`, the
/// count is `k`, and the base is `a`.
pub open spec fn at_check(run: Run, n: int, left: Operand, a: i64, r: i64, k: i64) -> bool {
    &&& run.at == n + 5
    &&& run.held.dom().contains(n)
    &&& run.held[n] == r
    &&& run.held.dom().contains(n + 2)
    &&& run.held[n + 2] == k
    &&& holds(run, left) == Some(a)
}

/// Where the branches of a power go.
proof fn lemma_power_blocks(body: Seq<Instruction>, n: int, left: Operand, right: Operand)
    requires
        ends_in_power(body, n, left, right),
    ensures
        destination(body, n + 4, Target::Ahead(1)) == n + 5,
        destination(body, n + 8, Target::Ahead(1)) == n + 9,
        destination(body, n + 8, Target::Ahead(2)) == n + 17,
        destination(body, n + 16, Target::Back(1)) == n + 5,
{
    let code = power_code(n, left, right);
    assert forall|j: int| 0 <= j < 19 implies body[n + j] == #[trigger] code[j] by {
        assert(body.subrange(n, n + 19)[j] == body[n + j]);
    }
    assert(body[n + 0] == code[0]);
    assert(body[n + 1] == code[1]);
    assert(body[n + 2] == code[2]);
    assert(body[n + 3] == code[3]);
    assert(body[n + 4] == code[4]);
    assert(body[n + 5] == code[5]);
    assert(body[n + 6] == code[6]);
    assert(body[n + 7] == code[7]);
    assert(body[n + 8] == code[8]);
    assert(body[n + 9] == code[9]);
    assert(body[n + 10] == code[10]);
    assert(body[n + 11] == code[11]);
    assert(body[n + 12] == code[12]);
    assert(body[n + 13] == code[13]);
    assert(body[n + 14] == code[14]);
    assert(body[n + 15] == code[15]);
    assert(body[n + 16] == code[16]);
    assert(body[n + 17] == code[17]);
    lemma_labels_next(body, n);
    lemma_labels_next(body, n + 1);
    lemma_labels_next(body, n + 2);
    lemma_labels_next(body, n + 3);
    lemma_labels_next(body, n + 4);
    lemma_labels_next(body, n + 5);
    lemma_labels_next(body, n + 6);
    lemma_labels_next(body, n + 7);
    lemma_labels_next(body, n + 8);
    lemma_labels_next(body, n + 9);
    lemma_labels_next(body, n + 10);
    lemma_labels_next(body, n + 11);
    lemma_labels_next(body, n + 12);
    lemma_labels_next(body, n + 13);
    lemma_labels_next(body, n + 14);
    lemma_labels_next(body, n + 15);
    lemma_labels_next(body, n + 16);
    lemma_labels_next(body, n + 17);
    lemma_destination(body, n + 4, Target::Ahead(1), n + 5);
    lemma_destination(body, n + 8, Target::Ahead(1), n + 9);
    lemma_destination(body, n + 8, Target::Ahead(2), n + 17);
    lemma_destination(body, n + 16, Target::Back(1), n + 5);
}

/// The instructions of a power, by their place in the body.
proof fn lemma_power_places(body: Seq<Instruction>, n: int, left: Operand, right: Operand)
    requires
        ends_in_power(body, n, left, right),
    ensures
        forall|j: int| 0 <= j < 19 ==> body[n + j] == #[trigger] power_code(n, left, right)[j],
{
    assert forall|j: int| 0 <= j < 19 implies body[n + j] == #[trigger] power_code(
        n,
        left,
        right,
    )[j] by {
        assert(body.subrange(n, n + 19)[j] == body[n + j]);
    }
}

/// The run stands at the start of the block that multiplies.
pub open spec fn at_step(run: Run, n: int, left: Operand, a: i64, r: i64, k: i64) -> bool {
    &&& run.at == n + 9
    &&& run.held.dom().contains(n)
    &&& run.held[n] == r
    &&& run.held.dom().contains(n + 2)
    &&& run.held[n + 2] == k
    &&& holds(run, left) == Some(a)
}

/// The test of the count: where the count is above zero, the block that
/// multiplies is entered.
proof fn lemma_power_test(
    body: Seq<Instruction>,
    n: int,
    left: Operand,
    right: Operand,
    run: Run,
    a: i64,
    r: i64,
    k: i64,
)
    requires
        ends_in_power(body, n, left, right),
        at_check(run, n, left, a, r, k),
        k > 0,
    ensures
        run_for(body, run, 4) matches Some(next) && at_step(next, n, left, a, r, k),
{
    lemma_power_places(body, n, left, right);
    lemma_power_blocks(body, n, left, right);
    let code = power_code(n, left, right);
    assert(body[n + 5] == code[5]);
    assert(body[n + 6] == code[6]);
    assert(body[n + 7] == code[7]);
    assert(body[n + 8] == code[8]);
    let s1 = Run { at: n + 6, ..run };
    assert(step(body, run) == Some(s1));
    let s2 = Run { at: n + 7, gave: s1.gave.insert(n + 6, k), ..s1 };
    assert(step(body, s1) == Some(s2));
    let s3 = Run { at: n + 8, bits: s2.bits.insert(n + 7, true), ..s2 };
    assert(holds(s2, Operand::Result((n + 6) as usize)) == Some(k));
    assert(step(body, s2) == Some(s3));
    let s4 = Run { at: n + 9, ..s3 };
    assert(holds_bit(s3, Operand::Result((n + 7) as usize)) == Some(true));
    assert(step(body, s3) == Some(s4));
    assert(holds(s4, left) == Some(a));
    assert(run_for(body, s4, 0) == Some(s4));
    assert(run_for(body, s3, 1) == Some(s4));
    assert(run_for(body, s2, 2) == Some(s4));
    assert(run_for(body, s1, 3) == Some(s4));
    assert(run_for(body, run, 4) == Some(s4));
}

/// The first half of the block that multiplies: the result is multiplied
/// by the base.
proof fn lemma_power_multiply(
    body: Seq<Instruction>,
    n: int,
    left: Operand,
    right: Operand,
    run: Run,
    a: i64,
    r: i64,
    k: i64,
)
    requires
        ends_in_power(body, n, left, right),
        at_step(run, n, left, a, r, k),
    ensures
        run_for(body, run, 4) matches Some(next) && at_step(
            Run { at: n + 9, ..next },
            n,
            left,
            a,
            wrap(r * a),
            k,
        ) && next.at == n + 13,
{
    lemma_power_places(body, n, left, right);
    let code = power_code(n, left, right);
    assert(body[n + 9] == code[9]);
    assert(body[n + 10] == code[10]);
    assert(body[n + 11] == code[11]);
    assert(body[n + 12] == code[12]);
    let s5 = Run { at: n + 10, ..run };
    assert(step(body, run) == Some(s5));
    let s6 = Run { at: n + 11, gave: s5.gave.insert(n + 10, r), ..s5 };
    assert(step(body, s5) == Some(s6));
    assert(holds(s6, left) == Some(a));
    assert(holds(s6, Operand::Result((n + 10) as usize)) == Some(r));
    let product = wrap(r * a);
    let s7 = Run { at: n + 12, gave: s6.gave.insert(n + 11, product), ..s6 };
    assert(step(body, s6) == Some(s7));
    assert(holds(s7, Operand::Result((n + 11) as usize)) == Some(product));
    let s8 = Run { at: n + 13, held: s7.held.insert(n, product), ..s7 };
    assert(step(body, s7) == Some(s8));
    assert(holds(s8, left) == Some(a));
    assert(run_for(body, s8, 0) == Some(s8));
    assert(run_for(body, s7, 1) == Some(s8));
    assert(run_for(body, s6, 2) == Some(s8));
    assert(run_for(body, s5, 3) == Some(s8));
    assert(run_for(body, run, 4) == Some(s8));
}

/// The second half of the block that multiplies: the count goes down by
/// one, and the test is entered again.
proof fn lemma_power_count(
    body: Seq<Instruction>,
    n: int,
    left: Operand,
    right: Operand,
    run: Run,
    a: i64,
    r: i64,
    k: i64,
)
    requires
        ends_in_power(body, n, left, right),
        at_step(Run { at: n + 9, ..run }, n, left, a, r, k),
        run.at == n + 13,
        k > 0,
    ensures
        run_for(body, run, 4) matches Some(next) && at_check(next, n, left, a, r, (k - 1) as i64),
{
    lemma_power_places(body, n, left, right);
    lemma_power_blocks(body, n, left, right);
    let code = power_code(n, left, right);
    assert(body[n + 13] == code[13]);
    assert(body[n + 14] == code[14]);
    assert(body[n + 15] == code[15]);
    assert(body[n + 16] == code[16]);
    assert(holds(run, left) == Some(a));
    let s9 = Run { at: n + 14, gave: run.gave.insert(n + 13, k), ..run };
    assert(step(body, run) == Some(s9));
    assert(holds(s9, Operand::Result((n + 13) as usize)) == Some(k));
    let fewer = (k - 1) as i64;
    assert(wrap(k - 1) == fewer);
    let s10 = Run { at: n + 15, gave: s9.gave.insert(n + 14, fewer), ..s9 };
    assert(step(body, s9) == Some(s10));
    assert(holds(s10, Operand::Result((n + 14) as usize)) == Some(fewer));
    let s11 = Run { at: n + 16, held: s10.held.insert(n + 2, fewer), ..s10 };
    assert(step(body, s10) == Some(s11));
    let s12 = Run { at: n + 5, ..s11 };
    assert(step(body, s11) == Some(s12));
    assert(holds(s12, left) == Some(a));
    assert(run_for(body, s12, 0) == Some(s12));
    assert(run_for(body, s11, 1) == Some(s12));
    assert(run_for(body, s10, 2) == Some(s12));
    assert(run_for(body, s9, 3) == Some(s12));
    assert(run_for(body, run, 4) == Some(s12));
}

/// One turn of the loop: where the count is above zero, the result is
/// multiplied by the base and the count goes down by one.
proof fn lemma_power_turn(
    body: Seq<Instruction>,
    n: int,
    left: Operand,
    right: Operand,
    run: Run,
    a: i64,
    r: i64,
    k: i64,
)
    requires
        ends_in_power(body, n, left, right),
        at_check(run, n, left, a, r, k),
        k > 0,
    ensures
        run_for(body, run, 12) matches Some(next) && at_check(
            next,
            n,
            left,
            a,
            wrap(r * a),
            (k - 1) as i64,
        ),
{
    lemma_power_test(body, n, left, right, run, a, r, k);
    let tested = run_for(body, run, 4)->0;
    lemma_power_multiply(body, n, left, right, tested, a, r, k);
    let multiplied = run_for(body, tested, 4)->0;
    lemma_power_count(body, n, left, right, multiplied, a, wrap(r * a), k);
    lemma_run_on(body, tested, 4, 4);
    lemma_run_on(body, run, 4, 8);
}

/// The end of the loop: where the count is not above zero, the power gives
/// the result so far.
proof fn lemma_power_leave(
    body: Seq<Instruction>,
    n: int,
    left: Operand,
    right: Operand,
    run: Run,
    a: i64,
    r: i64,
    k: i64,
)
    requires
        ends_in_power(body, n, left, right),
        at_check(run, n, left, a, r, k),
        k <= 0,
    ensures
        run_for(body, run, 6) matches Some(end) && end.at == body.len() && holds(
            end,
            Operand::Result((n + 18) as usize),
        ) == Some(r),
{
    lemma_power_places(body, n, left, right);
    lemma_power_blocks(body, n, left, right);
    let code = power_code(n, left, right);
    assert(body[n + 5] == code[5]);
    assert(body[n + 6] == code[6]);
    assert(body[n + 7] == code[7]);
    assert(body[n + 8] == code[8]);
    assert(body[n + 17] == code[17]);
    assert(body[n + 18] == code[18]);
    let s1 = Run { at: n + 6, ..run };
    assert(step(body, run) == Some(s1));
    let s2 = Run { at: n + 7, gave: s1.gave.insert(n + 6, k), ..s1 };
    assert(step(body, s1) == Some(s2));
    assert(holds(s2, Operand::Result((n + 6) as usize)) == Some(k));
    let s3 = Run { at: n + 8, bits: s2.bits.insert(n + 7, false), ..s2 };
    assert(step(body, s2) == Some(s3));
    assert(holds_bit(s3, Operand::Result((n + 7) as usize)) == Some(false));
    let s4 = Run { at: n + 17, ..s3 };
    assert(step(body, s3) == Some(s4));
    let s5 = Run { at: n + 18, ..s4 };
    assert(step(body, s4) == Some(s5));
    let s6 = Run { at: n + 19, gave: s5.gave.insert(n + 18, r), ..s5 };
    assert(step(body, s5) == Some(s6));
    assert(run_for(body, s6, 0) == Some(s6));
    assert(run_for(body, s5, 1) == Some(s6));
    assert(run_for(body, s4, 2) == Some(s6));
    assert(run_for(body, s3, 3) == Some(s6));
    assert(run_for(body, s2, 4) == Some(s6));
    assert(run_for(body, s1, 5) == Some(s6));
    assert(run_for(body, run, 6) == Some(s6));
}

/// The loop of a power: from the test of the count on, the result so far is
/// multiplied by the base as many times as the count says.
proof fn lemma_power_loop(
    body: Seq<Instruction>,
    n: int,
    left: Operand,
    right: Operand,
    run: Run,
    a: i64,
    r: i64,
    k: i64,
)
    requires
        ends_in_power(body, n, left, right),
        at_check(run, n, left, a, r, k),
    ensures
        run_for(body, run, power_steps(k as int)) matches Some(end) && end.at == body.len()
            && holds(end, Operand::Result((n + 18) as usize)) == Some(
            times(
                r,
                a,
                if k > 0 {
                    k as nat
                } else {
                    0
                },
            ),
        ),
    decreases k,
{
    if k <= 0 {
        lemma_power_leave(body, n, left, right, run, a, r, k);
    } else {
        lemma_power_turn(body, n, left, right, run, a, r, k);
        let next = run_for(body, run, 12)->0;
        lemma_power_loop(body, n, left, right, next, a, wrap(r * a), (k - 1) as i64);
        lemma_run_on(body, run, 12, power_steps(k - 1));
    }
}

/// A product wraps around to the same integer whether or not a factor has
/// wrapped around before.
pub proof fn lemma_wrap_product(x: int, y: int)
    ensures
        wrap(wrap(x) * y) == wrap(x * y),
{
    let m: int = 0x1_0000_0000_0000_0000;
    let h: int = 0x8000_0000_0000_0000;
    let q = (x + h) / m;
    lemma_fundamental_div_mod(x + h, m);
    assert(wrap(x) == x - m * q);
    assert(wrap(x) * y == x * y - m * (q * y)) by (nonlinear_arith)
        requires
            wrap(x) == x - m * q,
    ;
    lemma_mod_multiples_vanish(-(q * y), x * y + h, m);
    assert(m * (-(q * y)) + (x * y + h) == wrap(x) * y + h) by (nonlinear_arith)
        requires
            wrap(x) * y == x * y - m * (q * y),
    ;
}

/// Repeated multiplication in 64 bits gives the power, wrapped around.
pub proof fn lemma_times_is_power(r: i64, a: i64, k: nat)
    ensures
        times(r, a, k) == wrap(r * pow(a as int, k)),
    decreases k,
{
    reveal(pow);
    if k == 0 {
        assert(r * pow(a as int, 0) == r) by (nonlinear_arith)
            requires
                pow(a as int, 0) == 1,
        ;
    } else {
        let rest = pow(a as int, (k - 1) as nat);
        lemma_times_is_power(wrap(r * a), a, (k - 1) as nat);
        lemma_wrap_product(r * a, rest);
        assert((r * a) * rest == r * (a * rest)) by (nonlinear_arith);
    }
}

/// The code of an integer power computes the power. Where the base holds
/// `a` and the exponent holds `b` when the code starts to run, the code runs
/// to its end and gives `a` to the power `b`, wrapped around to 64 bits: the
/// power itself where it fits. An exponent below one gives one.
pub proof fn lemma_power_runs(st: State, left: Operand, right: Operand, run: Run, a: i64, b: i64)
    requires
        st.body.len() + 19 <= usize::MAX,
        rank(left) <= st.body.len(),
        run.at == st.body.len(),
        holds(run, left) == Some(a),
        holds(run, right) == Some(b),
    ensures
        run_for(int_power(st, left, right).0.body, run, 5 + power_steps(b as int)) matches Some(
            end,
        ) && end.at == int_power(st, left, right).0.body.len() && holds(
            end,
            int_power(st, left, right).1.operand,
        ) == Some(
            wrap(
                pow(
                    a as int,
                    if b > 0 {
                        b as nat
                    } else {
                        0
                    },
                ),
            ),
        ),
{
    let n = st.body.len() as int;
    let body = int_power(st, left, right).0.body;
    let exponent: nat = if b > 0 {
        b as nat
    } else {
        0
    };
    lemma_times_is_power(1, a, exponent);
    assert(1 * pow(a as int, exponent) == pow(a as int, exponent));
    lemma_power_code(st, left, right);
    assert(body.subrange(n, n + 19) =~= power_code(n, left, right));
    lemma_power_places(body, n, left, right);
    lemma_power_blocks(body, n, left, right);
    let code = power_code(n, left, right);
    assert(body[n + 0] == code[0]);
    assert(body[n + 1] == code[1]);
    assert(body[n + 2] == code[2]);
    assert(body[n + 3] == code[3]);
    assert(body[n + 4] == code[4]);
    let s1 = Run { at: n + 1, ..run };
    assert(step(body, run) == Some(s1));
    let s2 = Run { at: n + 2, held: s1.held.insert(n, 1), ..s1 };
    assert(step(body, s1) == Some(s2));
    let s3 = Run { at: n + 3, ..s2 };
    assert(step(body, s2) == Some(s3));
    let s4 = Run { at: n + 4, held: s3.held.insert(n + 2, b), ..s3 };
    assert(holds(s3, right) == Some(b));
    assert(step(body, s3) == Some(s4));
    let s5 = Run { at: n + 5, ..s4 };
    assert(step(body, s4) == Some(s5));
    assert(run_for(body, s5, 0) == Some(s5));
    assert(run_for(body, s4, 1) == Some(s5));
    assert(run_for(body, s3, 2) == Some(s5));
    assert(run_for(body, s2, 3) == Some(s5));
    assert(run_for(body, s1, 4) == Some(s5));
    assert(run_for(body, run, 5) == Some(s5));
    lemma_power_loop(body, n, left, right, s5, a, 1, b);
    lemma_run_on(body, run, 5, power_steps(b as int));
}

} // verus!
