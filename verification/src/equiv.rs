//! Laws relating the optimizer's fused operations to the generic loops
//! they replace.
//!
//! `lemma_fusion_idempotent` shows that a second optimization pass can
//! never re-fuse what is already fused.  `lemma_clear_loop_clears`,
//! `lemma_scan_loop_scans` and `lemma_transfer_loop_transfers` show, over
//! the machine's own step interpreter, that running a generic clear,
//! scan or transfer loop changes the state exactly as one dispatch of the
//! fused operation does, for every starting cell value and tape.

use vstd::arithmetic::div_mod::{lemma_add_mod_noop_right, lemma_small_mod};
use vstd::prelude::*;

use crate::machine::{scan_spec, step_spec, steps_n, wrap_add, ExecSt, Outcome, TAPE_LEN};
use crate::ops::{BfOp, BfOpKind};
use crate::optimize::{is_fused_kind, optimize_loop_spec};

verus! {

/// A loop whose body consists only of fused operations matches no
/// optimizer shape: re-optimizing an already-fused sequence is a
/// no-operation, since fused operations contain no loop a second pass
/// could misread.
pub proof fn lemma_fusion_idempotent(ops: Seq<BfOp>, loop_start: int)
    requires
        0 <= loop_start,
        forall|i: int| loop_start < i < ops.len() ==> is_fused_kind((#[trigger] ops[i]).kind),
    ensures
        optimize_loop_spec(ops, loop_start) is None,
{
}

/// The generic three-operation loop that the clear-cell fusion replaces:
/// an opening test jumping past the loop, a unit decrement, and a closing
/// test jumping back to just after the opening test.
pub open spec fn clear_loop_at(prog: Seq<BfOp>, l: int) -> bool {
    &&& 0 <= l
    &&& l + 3 <= prog.len()
    &&& l + 2 <= i64::MAX
    &&& prog[l] == (BfOp { kind: BfOpKind::JumpIfDataZero, argument: (l + 2) as i64 })
    &&& prog[l + 1] == (BfOp { kind: BfOpKind::DecData, argument: 1i64 })
    &&& prog[l + 2] == (BfOp { kind: BfOpKind::JumpIfDataNotZero, argument: l as i64 })
}

/// Inside the clear loop, just after the opening test, with a non-zero
/// cell: the loop runs on to the operation past itself with the cell at
/// zero and nothing else changed.
proof fn lemma_clear_loop_body(prog: Seq<BfOp>, inp: Seq<u8>, s: ExecSt)
    requires
        clear_loop_at(prog, s.ip - 1),
        s.tape.len() == TAPE_LEN,
        0 <= s.dp < TAPE_LEN,
        1 <= s.tape[s.dp],
    ensures
        exists|n: nat|
            steps_n(prog, inp, s, n) == Some(
                ExecSt { tape: s.tape.update(s.dp, 0u8), ip: s.ip + 2, ..s },
            ),
    decreases s.tape[s.dp],
{
    let l = s.ip - 1;
    let v = s.tape[s.dp];
    assert(wrap_add(v, 0 - 1) == (v - 1) as u8) by {
        lemma_small_mod((v - 1) as nat, 256);
    }
    let s1 = ExecSt { tape: s.tape.update(s.dp, (v - 1) as u8), ip: l + 2, ..s };
    assert(step_spec(prog, inp, s) =~= (s1, None::<Outcome>));
    if v == 1 {
        let s2 = ExecSt { ip: l + 3, ..s1 };
        assert(step_spec(prog, inp, s1) =~= (s2, None::<Outcome>));
        assert(steps_n(prog, inp, s, 2) == steps_n(prog, inp, s1, 1));
        assert(steps_n(prog, inp, s1, 1) == steps_n(prog, inp, s2, 0));
        assert(s2 =~= ExecSt { tape: s.tape.update(s.dp, 0u8), ip: s.ip + 2, ..s });
        assert(steps_n(prog, inp, s, 2) == Some(
            ExecSt { tape: s.tape.update(s.dp, 0u8), ip: s.ip + 2, ..s },
        ));
    } else {
        let s2 = ExecSt { ip: l + 1, ..s1 };
        assert(step_spec(prog, inp, s1) =~= (s2, None::<Outcome>));
        lemma_clear_loop_body(prog, inp, s2);
        let target2 = ExecSt { tape: s2.tape.update(s2.dp, 0u8), ip: s2.ip + 2, ..s2 };
        let k = choose|n: nat| steps_n(prog, inp, s2, n) == Some(target2);
        assert(steps_n(prog, inp, s, (2 + k) as nat) == steps_n(prog, inp, s1, (1 + k) as nat));
        assert(steps_n(prog, inp, s1, (1 + k) as nat) == steps_n(prog, inp, s2, k));
        assert(target2 =~= ExecSt { tape: s.tape.update(s.dp, 0u8), ip: s.ip + 2, ..s });
        assert(steps_n(prog, inp, s, (2 + k) as nat) == Some(
            ExecSt { tape: s.tape.update(s.dp, 0u8), ip: s.ip + 2, ..s },
        ));
    }
}

/// Clear-cell equivalence, for every starting value of the cell: running
/// the generic `[-]` loop from its opening test leaves the current cell
/// at zero, everything else unchanged, and the instruction pointer just
/// past the loop - exactly the effect of one dispatch of the fused
/// clear-cell operation, which sets the cell to zero and advances by one.
pub proof fn lemma_clear_loop_clears(prog: Seq<BfOp>, inp: Seq<u8>, s: ExecSt)
    requires
        clear_loop_at(prog, s.ip),
        s.tape.len() == TAPE_LEN,
        0 <= s.dp < TAPE_LEN,
    ensures
        exists|n: nat|
            steps_n(prog, inp, s, n) == Some(
                ExecSt { tape: s.tape.update(s.dp, 0u8), ip: s.ip + 3, ..s },
            ),
{
    let l = s.ip;
    let v = s.tape[s.dp];
    if v == 0 {
        let s1 = ExecSt { ip: l + 3, ..s };
        assert(step_spec(prog, inp, s) =~= (s1, None::<Outcome>));
        assert(steps_n(prog, inp, s, 1) == steps_n(prog, inp, s1, 0));
        assert(s.tape.update(s.dp, 0u8) =~= s.tape);
        assert(s1 =~= ExecSt { tape: s.tape.update(s.dp, 0u8), ip: s.ip + 3, ..s });
        assert(steps_n(prog, inp, s, 1) == Some(
            ExecSt { tape: s.tape.update(s.dp, 0u8), ip: s.ip + 3, ..s },
        ));
    } else {
        let s1 = ExecSt { ip: l + 1, ..s };
        assert(step_spec(prog, inp, s) =~= (s1, None::<Outcome>));
        lemma_clear_loop_body(prog, inp, s1);
        let target1 = ExecSt { tape: s1.tape.update(s1.dp, 0u8), ip: s1.ip + 2, ..s1 };
        let k = choose|n: nat| steps_n(prog, inp, s1, n) == Some(target1);
        assert(steps_n(prog, inp, s, (1 + k) as nat) == steps_n(prog, inp, s1, k));
        assert(target1 =~= ExecSt { tape: s.tape.update(s.dp, 0u8), ip: s.ip + 3, ..s });
        assert(steps_n(prog, inp, s, (1 + k) as nat) == Some(
            ExecSt { tape: s.tape.update(s.dp, 0u8), ip: s.ip + 3, ..s },
        ));
    }
}

/// The generic three-operation loop that the scan fusion replaces: an
/// opening test, one pointer move of `count` cells in one direction
/// (`step` is `count` rightward, `-count` leftward), and the closing test.
pub open spec fn scan_loop_at(prog: Seq<BfOp>, l: int, step: int) -> bool {
    &&& 0 <= l
    &&& l + 3 <= prog.len()
    &&& l + 2 <= i64::MAX
    &&& i64::MIN < step <= i64::MAX
    &&& prog[l] == (BfOp { kind: BfOpKind::JumpIfDataZero, argument: (l + 2) as i64 })
    &&& (if step >= 0 {
        prog[l + 1] == (BfOp { kind: BfOpKind::IncPtr, argument: step as i64 })
    } else {
        prog[l + 1] == (BfOp { kind: BfOpKind::DecPtr, argument: (0 - step) as i64 })
    })
    &&& prog[l + 2] == (BfOp { kind: BfOpKind::JumpIfDataNotZero, argument: l as i64 })
}

/// Inside the scan loop, just after the opening test, with a non-zero
/// cell: the loop carries the data pointer to where the scan ends.
proof fn lemma_scan_loop_body(prog: Seq<BfOp>, inp: Seq<u8>, s: ExecSt, step: int)
    requires
        scan_loop_at(prog, s.ip - 1, step),
        s.tape.len() == TAPE_LEN,
        0 <= s.dp < TAPE_LEN,
        1 <= s.tape[s.dp],
        scan_spec(s.tape, s.dp, step) is Some,
    ensures
        exists|n: nat|
            steps_n(prog, inp, s, n) == Some(
                ExecSt { dp: scan_spec(s.tape, s.dp, step).unwrap(), ip: s.ip + 2, ..s },
            ),
    decreases (if step >= 0 { TAPE_LEN - s.dp } else { s.dp }),
{
    let l = s.ip - 1;
    let dp2 = s.dp + step;
    assert(0 <= dp2 < TAPE_LEN && step != 0);
    let s1 = ExecSt { dp: dp2, ip: l + 2, ..s };
    assert(step_spec(prog, inp, s) =~= (s1, None::<Outcome>));
    if s.tape[dp2] == 0 {
        let s2 = ExecSt { ip: l + 3, ..s1 };
        assert(step_spec(prog, inp, s1) =~= (s2, None::<Outcome>));
        assert(steps_n(prog, inp, s, 2) == steps_n(prog, inp, s1, 1));
        assert(steps_n(prog, inp, s1, 1) == steps_n(prog, inp, s2, 0));
        assert(scan_spec(s.tape, s.dp, step) == Some(dp2));
        assert(steps_n(prog, inp, s, 2) == Some(
            ExecSt { dp: scan_spec(s.tape, s.dp, step).unwrap(), ip: s.ip + 2, ..s },
        ));
    } else {
        let s2 = ExecSt { ip: l + 1, ..s1 };
        assert(step_spec(prog, inp, s1) =~= (s2, None::<Outcome>));
        assert(scan_spec(s.tape, s.dp, step) == scan_spec(s.tape, dp2, step));
        lemma_scan_loop_body(prog, inp, s2, step);
        let target2 = ExecSt { dp: scan_spec(s2.tape, s2.dp, step).unwrap(), ip: s2.ip + 2, ..s2 };
        let k = choose|n: nat| steps_n(prog, inp, s2, n) == Some(target2);
        assert(steps_n(prog, inp, s, (2 + k) as nat) == steps_n(prog, inp, s1, (1 + k) as nat));
        assert(steps_n(prog, inp, s1, (1 + k) as nat) == steps_n(prog, inp, s2, k));
        assert(target2 =~= ExecSt { dp: scan_spec(s.tape, s.dp, step).unwrap(), ip: s.ip + 2, ..s });
        assert(steps_n(prog, inp, s, (2 + k) as nat) == Some(
            ExecSt { dp: scan_spec(s.tape, s.dp, step).unwrap(), ip: s.ip + 2, ..s },
        ));
    }
}

/// Scan-until-zero equivalence: whenever the scan finds a zero cell on
/// the tape, running the generic one-move loop from its opening test
/// carries the data pointer exactly where one dispatch of the fused
/// scan operation puts it, with the tape, input and output untouched.
pub proof fn lemma_scan_loop_scans(prog: Seq<BfOp>, inp: Seq<u8>, s: ExecSt, step: int)
    requires
        scan_loop_at(prog, s.ip, step),
        s.tape.len() == TAPE_LEN,
        0 <= s.dp < TAPE_LEN,
        scan_spec(s.tape, s.dp, step) is Some,
    ensures
        exists|n: nat|
            steps_n(prog, inp, s, n) == Some(
                ExecSt { dp: scan_spec(s.tape, s.dp, step).unwrap(), ip: s.ip + 3, ..s },
            ),
{
    let l = s.ip;
    if s.tape[s.dp] == 0 {
        let s1 = ExecSt { ip: l + 3, ..s };
        assert(step_spec(prog, inp, s) =~= (s1, None::<Outcome>));
        assert(steps_n(prog, inp, s, 1) == steps_n(prog, inp, s1, 0));
        assert(scan_spec(s.tape, s.dp, step) == Some(s.dp));
        assert(s1 =~= ExecSt { dp: scan_spec(s.tape, s.dp, step).unwrap(), ip: s.ip + 3, ..s });
        assert(steps_n(prog, inp, s, 1) == Some(
            ExecSt { dp: scan_spec(s.tape, s.dp, step).unwrap(), ip: s.ip + 3, ..s },
        ));
    } else {
        let s1 = ExecSt { ip: l + 1, ..s };
        assert(step_spec(prog, inp, s) =~= (s1, None::<Outcome>));
        lemma_scan_loop_body(prog, inp, s1, step);
        let target1 = ExecSt { dp: scan_spec(s1.tape, s1.dp, step).unwrap(), ip: s1.ip + 2, ..s1 };
        let k = choose|n: nat| steps_n(prog, inp, s1, n) == Some(target1);
        assert(steps_n(prog, inp, s, (1 + k) as nat) == steps_n(prog, inp, s1, k));
        assert(target1 =~= ExecSt { dp: scan_spec(s.tape, s.dp, step).unwrap(), ip: s.ip + 3, ..s });
        assert(steps_n(prog, inp, s, (1 + k) as nat) == Some(
            ExecSt { dp: scan_spec(s.tape, s.dp, step).unwrap(), ip: s.ip + 3, ..s },
        ));
    }
}

/// The generic six-operation loop that the decrement-first transfer
/// fusion replaces: an opening test, a unit decrement, a pointer move of
/// `off` cells (rightward for positive `off`, leftward for negative), a
/// unit increment, the move back, and the closing test.
pub open spec fn transfer_loop_at(prog: Seq<BfOp>, l: int, off: int) -> bool {
    &&& 0 <= l
    &&& l + 6 <= prog.len()
    &&& l + 5 <= i64::MAX
    &&& off != 0
    &&& i64::MIN < off <= i64::MAX
    &&& prog[l] == (BfOp { kind: BfOpKind::JumpIfDataZero, argument: (l + 5) as i64 })
    &&& prog[l + 1] == (BfOp { kind: BfOpKind::DecData, argument: 1i64 })
    &&& (if off >= 0 {
        prog[l + 2] == (BfOp { kind: BfOpKind::IncPtr, argument: off as i64 }) && prog[l + 4]
            == (BfOp { kind: BfOpKind::DecPtr, argument: off as i64 })
    } else {
        prog[l + 2] == (BfOp { kind: BfOpKind::DecPtr, argument: (0 - off) as i64 }) && prog[l + 4]
            == (BfOp { kind: BfOpKind::IncPtr, argument: (0 - off) as i64 })
    })
    &&& prog[l + 3] == (BfOp { kind: BfOpKind::IncData, argument: 1i64 })
    &&& prog[l + 5] == (BfOp { kind: BfOpKind::JumpIfDataNotZero, argument: l as i64 })
}

/// Inside the transfer loop, just after the opening test, with a
/// non-zero cell: the remaining iterations move the whole cell value
/// into the target cell, modulo 256.
proof fn lemma_transfer_loop_body(prog: Seq<BfOp>, inp: Seq<u8>, s: ExecSt, off: int)
    requires
        transfer_loop_at(prog, s.ip - 1, off),
        s.tape.len() == TAPE_LEN,
        0 <= s.dp < TAPE_LEN,
        0 <= s.dp + off < TAPE_LEN,
        1 <= s.tape[s.dp],
    ensures
        exists|n: nat|
            steps_n(prog, inp, s, n) == Some(
                ExecSt {
                    tape: s.tape.update(
                        s.dp + off,
                        wrap_add(s.tape[s.dp + off], s.tape[s.dp] as int),
                    ).update(s.dp, 0u8),
                    ip: s.ip + 5,
                    ..s
                },
            ),
    decreases s.tape[s.dp],
{
    let l = s.ip - 1;
    let v = s.tape[s.dp];
    let t = s.dp + off;
    let tv = s.tape[t];
    assert(wrap_add(v, 0 - 1) == (v - 1) as u8) by {
        lemma_small_mod((v - 1) as nat, 256);
    }
    let s1 = ExecSt { tape: s.tape.update(s.dp, (v - 1) as u8), ip: l + 2, ..s };
    assert(step_spec(prog, inp, s) =~= (s1, None::<Outcome>));
    let s2 = ExecSt { dp: t, ip: l + 3, ..s1 };
    assert(step_spec(prog, inp, s1) =~= (s2, None::<Outcome>));
    let s3 = ExecSt { tape: s1.tape.update(t, wrap_add(tv, 1)), ip: l + 4, ..s2 };
    assert(s1.tape[t] == tv);
    assert(step_spec(prog, inp, s2) =~= (s3, None::<Outcome>));
    let s4 = ExecSt { dp: s.dp, ip: l + 5, ..s3 };
    assert(step_spec(prog, inp, s3) =~= (s4, None::<Outcome>));
    assert(s4.tape[s.dp] == v - 1);
    let target = ExecSt {
        tape: s.tape.update(t, wrap_add(tv, v as int)).update(s.dp, 0u8),
        ip: s.ip + 5,
        ..s
    };
    if v == 1 {
        let s5 = ExecSt { ip: l + 6, ..s4 };
        assert(step_spec(prog, inp, s4) =~= (s5, None::<Outcome>));
        assert(steps_n(prog, inp, s, 5) == steps_n(prog, inp, s1, 4));
        assert(steps_n(prog, inp, s1, 4) == steps_n(prog, inp, s2, 3));
        assert(steps_n(prog, inp, s2, 3) == steps_n(prog, inp, s3, 2));
        assert(steps_n(prog, inp, s3, 2) == steps_n(prog, inp, s4, 1));
        assert(steps_n(prog, inp, s4, 1) == steps_n(prog, inp, s5, 0));
        assert(s5 =~= target);
        assert(steps_n(prog, inp, s, 5) == Some(target));
    } else {
        let s5 = ExecSt { ip: l + 1, ..s4 };
        assert(step_spec(prog, inp, s4) =~= (s5, None::<Outcome>));
        assert(s5.tape[s5.dp] == v - 1);
        assert(s5.tape[s5.dp + off] == wrap_add(tv, 1));
        lemma_transfer_loop_body(prog, inp, s5, off);
        let target5 = ExecSt {
            tape: s5.tape.update(
                s5.dp + off,
                wrap_add(s5.tape[s5.dp + off], s5.tape[s5.dp] as int),
            ).update(s5.dp, 0u8),
            ip: s5.ip + 5,
            ..s5
        };
        let k = choose|n: nat| steps_n(prog, inp, s5, n) == Some(target5);
        assert(steps_n(prog, inp, s, (5 + k) as nat) == steps_n(prog, inp, s1, (4 + k) as nat));
        assert(steps_n(prog, inp, s1, (4 + k) as nat) == steps_n(prog, inp, s2, (3 + k) as nat));
        assert(steps_n(prog, inp, s2, (3 + k) as nat) == steps_n(prog, inp, s3, (2 + k) as nat));
        assert(steps_n(prog, inp, s3, (2 + k) as nat) == steps_n(prog, inp, s4, (1 + k) as nat));
        assert(steps_n(prog, inp, s4, (1 + k) as nat) == steps_n(prog, inp, s5, k));
        assert(wrap_add(wrap_add(tv, 1), (v - 1) as int) == wrap_add(tv, v as int)) by {
            lemma_add_mod_noop_right((v - 1) as int, (tv + 1) as int, 256);
        }
        assert(target5 =~= target);
        assert(steps_n(prog, inp, s, (5 + k) as nat) == Some(target));
    }
}

/// Transfer-cell equivalence, for every starting value of the cell and
/// the target: running the generic decrement-first transfer loop from
/// its opening test adds the whole current cell into the cell `off` away
/// modulo 256, zeroes the current cell, and leaves the instruction
/// pointer just past the loop - exactly the effect of one dispatch of
/// the fused transfer operation.
pub proof fn lemma_transfer_loop_transfers(prog: Seq<BfOp>, inp: Seq<u8>, s: ExecSt, off: int)
    requires
        transfer_loop_at(prog, s.ip, off),
        s.tape.len() == TAPE_LEN,
        0 <= s.dp < TAPE_LEN,
        0 <= s.dp + off < TAPE_LEN,
    ensures
        s.tape[s.dp] == 0 ==> exists|n: nat|
            steps_n(prog, inp, s, n) == Some(ExecSt { ip: s.ip + 6, ..s }),
        s.tape[s.dp] != 0 ==> exists|n: nat|
            steps_n(prog, inp, s, n) == Some(
                ExecSt {
                    tape: s.tape.update(
                        s.dp + off,
                        wrap_add(s.tape[s.dp + off], s.tape[s.dp] as int),
                    ).update(s.dp, 0u8),
                    ip: s.ip + 6,
                    ..s
                },
            ),
{
    let l = s.ip;
    if s.tape[s.dp] == 0 {
        let s1 = ExecSt { ip: l + 6, ..s };
        assert(step_spec(prog, inp, s) =~= (s1, None::<Outcome>));
        assert(steps_n(prog, inp, s, 1) == steps_n(prog, inp, s1, 0));
        assert(steps_n(prog, inp, s, 1) == Some(ExecSt { ip: s.ip + 6, ..s }));
    } else {
        let s1 = ExecSt { ip: l + 1, ..s };
        assert(step_spec(prog, inp, s) =~= (s1, None::<Outcome>));
        lemma_transfer_loop_body(prog, inp, s1, off);
        let target1 = ExecSt {
            tape: s1.tape.update(
                s1.dp + off,
                wrap_add(s1.tape[s1.dp + off], s1.tape[s1.dp] as int),
            ).update(s1.dp, 0u8),
            ip: s1.ip + 5,
            ..s1
        };
        let k = choose|n: nat| steps_n(prog, inp, s1, n) == Some(target1);
        assert(steps_n(prog, inp, s, (1 + k) as nat) == steps_n(prog, inp, s1, k));
        let target = ExecSt {
            tape: s.tape.update(
                s.dp + off,
                wrap_add(s.tape[s.dp + off], s.tape[s.dp] as int),
            ).update(s.dp, 0u8),
            ip: s.ip + 6,
            ..s
        };
        assert(target1 =~= target);
        assert(steps_n(prog, inp, s, (1 + k) as nat) == Some(target));
    }
}

/// The generic six-operation loop of the other polarity order that the
/// transfer fusion also replaces: a unit increment before the move and a
/// unit decrement at the target.  It loops until the current cell wraps
/// around to zero, so its net effect is the same transfer modulo 256.
pub open spec fn transfer_loop_inc_at(prog: Seq<BfOp>, l: int, off: int) -> bool {
    &&& 0 <= l
    &&& l + 6 <= prog.len()
    &&& l + 5 <= i64::MAX
    &&& off != 0
    &&& i64::MIN < off <= i64::MAX
    &&& prog[l] == (BfOp { kind: BfOpKind::JumpIfDataZero, argument: (l + 5) as i64 })
    &&& prog[l + 1] == (BfOp { kind: BfOpKind::IncData, argument: 1i64 })
    &&& (if off >= 0 {
        prog[l + 2] == (BfOp { kind: BfOpKind::IncPtr, argument: off as i64 }) && prog[l + 4]
            == (BfOp { kind: BfOpKind::DecPtr, argument: off as i64 })
    } else {
        prog[l + 2] == (BfOp { kind: BfOpKind::DecPtr, argument: (0 - off) as i64 }) && prog[l + 4]
            == (BfOp { kind: BfOpKind::IncPtr, argument: (0 - off) as i64 })
    })
    &&& prog[l + 3] == (BfOp { kind: BfOpKind::DecData, argument: 1i64 })
    &&& prog[l + 5] == (BfOp { kind: BfOpKind::JumpIfDataNotZero, argument: l as i64 })
}

/// Inside the increment-first transfer loop, just after the opening
/// test, with a non-zero cell: the remaining iterations wrap the cell up
/// to zero while draining the target by the same count - a transfer of
/// the cell's value modulo 256.
proof fn lemma_transfer_inc_loop_body(prog: Seq<BfOp>, inp: Seq<u8>, s: ExecSt, off: int)
    requires
        transfer_loop_inc_at(prog, s.ip - 1, off),
        s.tape.len() == TAPE_LEN,
        0 <= s.dp < TAPE_LEN,
        0 <= s.dp + off < TAPE_LEN,
        1 <= s.tape[s.dp],
    ensures
        exists|n: nat|
            steps_n(prog, inp, s, n) == Some(
                ExecSt {
                    tape: s.tape.update(
                        s.dp + off,
                        wrap_add(s.tape[s.dp + off], s.tape[s.dp] as int),
                    ).update(s.dp, 0u8),
                    ip: s.ip + 5,
                    ..s
                },
            ),
    decreases 256 - s.tape[s.dp],
{
    let l = s.ip - 1;
    let v = s.tape[s.dp];
    let t = s.dp + off;
    let tv = s.tape[t];
    let s1 = ExecSt { tape: s.tape.update(s.dp, wrap_add(v, 1)), ip: l + 2, ..s };
    assert(step_spec(prog, inp, s) =~= (s1, None::<Outcome>));
    let s2 = ExecSt { dp: t, ip: l + 3, ..s1 };
    assert(step_spec(prog, inp, s1) =~= (s2, None::<Outcome>));
    assert(s1.tape[t] == tv);
    let s3 = ExecSt { tape: s1.tape.update(t, wrap_add(tv, 0 - 1)), ip: l + 4, ..s2 };
    assert(step_spec(prog, inp, s2) =~= (s3, None::<Outcome>));
    let s4 = ExecSt { dp: s.dp, ip: l + 5, ..s3 };
    assert(step_spec(prog, inp, s3) =~= (s4, None::<Outcome>));
    assert(s4.tape[s.dp] == wrap_add(v, 1));
    let target = ExecSt {
        tape: s.tape.update(t, wrap_add(tv, v as int)).update(s.dp, 0u8),
        ip: s.ip + 5,
        ..s
    };
    if v == 255 {
        assert(wrap_add(v, 1) == 0u8);
        let s5 = ExecSt { ip: l + 6, ..s4 };
        assert(step_spec(prog, inp, s4) =~= (s5, None::<Outcome>));
        assert(steps_n(prog, inp, s, 5) == steps_n(prog, inp, s1, 4));
        assert(steps_n(prog, inp, s1, 4) == steps_n(prog, inp, s2, 3));
        assert(steps_n(prog, inp, s2, 3) == steps_n(prog, inp, s3, 2));
        assert(steps_n(prog, inp, s3, 2) == steps_n(prog, inp, s4, 1));
        assert(steps_n(prog, inp, s4, 1) == steps_n(prog, inp, s5, 0));
        // one decrement is one transfer of 255, modulo 256
        assert(wrap_add(tv, 0 - 1) == wrap_add(tv, 255int)) by {
            lemma_add_mod_noop_right(tv as int, 0 - 1, 256);
            lemma_add_mod_noop_right(tv as int, 255int, 256);
        }
        assert(s5 =~= target);
        assert(steps_n(prog, inp, s, 5) == Some(target));
    } else {
        assert(wrap_add(v, 1) == (v + 1) as u8) by {
            lemma_small_mod((v + 1) as nat, 256);
        }
        let s5 = ExecSt { ip: l + 1, ..s4 };
        assert(step_spec(prog, inp, s4) =~= (s5, None::<Outcome>));
        assert(s5.tape[s5.dp] == v + 1);
        assert(s5.tape[s5.dp + off] == wrap_add(tv, 0 - 1));
        lemma_transfer_inc_loop_body(prog, inp, s5, off);
        let target5 = ExecSt {
            tape: s5.tape.update(
                s5.dp + off,
                wrap_add(s5.tape[s5.dp + off], s5.tape[s5.dp] as int),
            ).update(s5.dp, 0u8),
            ip: s5.ip + 5,
            ..s5
        };
        let k = choose|n: nat| steps_n(prog, inp, s5, n) == Some(target5);
        assert(steps_n(prog, inp, s, (5 + k) as nat) == steps_n(prog, inp, s1, (4 + k) as nat));
        assert(steps_n(prog, inp, s1, (4 + k) as nat) == steps_n(prog, inp, s2, (3 + k) as nat));
        assert(steps_n(prog, inp, s2, (3 + k) as nat) == steps_n(prog, inp, s3, (2 + k) as nat));
        assert(steps_n(prog, inp, s3, (2 + k) as nat) == steps_n(prog, inp, s4, (1 + k) as nat));
        assert(steps_n(prog, inp, s4, (1 + k) as nat) == steps_n(prog, inp, s5, k));
        assert(wrap_add(wrap_add(tv, 0 - 1), (v + 1) as int) == wrap_add(tv, v as int)) by {
            lemma_add_mod_noop_right((v + 1) as int, (tv - 1) as int, 256);
        }
        assert(target5 =~= target);
        assert(steps_n(prog, inp, s, (5 + k) as nat) == Some(target));
    }
}

/// Transfer-cell equivalence in the other polarity order: the
/// increment-first loop has the same net effect as the decrement-first
/// one and as the fused transfer dispatch - the whole cell value moves
/// into the target modulo 256 and the cell ends at zero.
pub proof fn lemma_transfer_inc_loop_transfers(prog: Seq<BfOp>, inp: Seq<u8>, s: ExecSt, off: int)
    requires
        transfer_loop_inc_at(prog, s.ip, off),
        s.tape.len() == TAPE_LEN,
        0 <= s.dp < TAPE_LEN,
        0 <= s.dp + off < TAPE_LEN,
    ensures
        s.tape[s.dp] == 0 ==> exists|n: nat|
            steps_n(prog, inp, s, n) == Some(ExecSt { ip: s.ip + 6, ..s }),
        s.tape[s.dp] != 0 ==> exists|n: nat|
            steps_n(prog, inp, s, n) == Some(
                ExecSt {
                    tape: s.tape.update(
                        s.dp + off,
                        wrap_add(s.tape[s.dp + off], s.tape[s.dp] as int),
                    ).update(s.dp, 0u8),
                    ip: s.ip + 6,
                    ..s
                },
            ),
{
    let l = s.ip;
    if s.tape[s.dp] == 0 {
        let s1 = ExecSt { ip: l + 6, ..s };
        assert(step_spec(prog, inp, s) =~= (s1, None::<Outcome>));
        assert(steps_n(prog, inp, s, 1) == steps_n(prog, inp, s1, 0));
        assert(steps_n(prog, inp, s, 1) == Some(ExecSt { ip: s.ip + 6, ..s }));
    } else {
        let s1 = ExecSt { ip: l + 1, ..s };
        assert(step_spec(prog, inp, s) =~= (s1, None::<Outcome>));
        lemma_transfer_inc_loop_body(prog, inp, s1, off);
        let target1 = ExecSt {
            tape: s1.tape.update(
                s1.dp + off,
                wrap_add(s1.tape[s1.dp + off], s1.tape[s1.dp] as int),
            ).update(s1.dp, 0u8),
            ip: s1.ip + 5,
            ..s1
        };
        let k = choose|n: nat| steps_n(prog, inp, s1, n) == Some(target1);
        assert(steps_n(prog, inp, s, (1 + k) as nat) == steps_n(prog, inp, s1, k));
        let target = ExecSt {
            tape: s.tape.update(
                s.dp + off,
                wrap_add(s.tape[s.dp + off], s.tape[s.dp] as int),
            ).update(s.dp, 0u8),
            ip: s.ip + 6,
            ..s
        };
        assert(target1 =~= target);
        assert(steps_n(prog, inp, s, (1 + k) as nat) == Some(target));
    }
}

} // verus!
