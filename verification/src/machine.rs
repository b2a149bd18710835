//! The execution engine: owns the tape and both pointers and runs a
//! finished operation sequence to completion, reading input bytes from a
//! supplied buffer and collecting output bytes.
//!
//! The instruction pointer advances by one after every dispatched
//! operation, including after an explicit jump; execution ends when it
//! passes the end of the program, or immediately - as a success - when a
//! read observes end of input.  Pointer movement is range-checked: a step
//! that would leave the tape, or a jump to a negative target, ends the run
//! with `OutOfRange` instead of touching memory outside the tape.
//!
//! The meaning of every dispatch is given by the one-step interpreter
//! `step_spec`; a whole run is pinned down by `run_spec`, the fuelled
//! iteration of `step_spec`.

use vstd::arithmetic::div_mod::{
    lemma_add_mod_noop,
    lemma_fundamental_div_mod,
    lemma_mod_multiples_vanish,
    lemma_small_mod,
};
use vstd::prelude::*;

use crate::ops::{BfOp, BfOpKind};

verus! {

/// The fixed length of the data tape.
pub const TAPE_LEN: usize = 30000;

/// How a run ended.
#[derive(Clone, Copy, PartialEq, Eq, Structural, Debug)]
pub enum Outcome {
    /// The instruction pointer passed the end of the program.
    Finished,
    /// A read observed end of input: a defined, successful termination.
    InputExhausted,
    /// A pointer move, transfer offset or jump target left its range.
    OutOfRange,
}

/// The abstract machine state: the tape, the data pointer, the instruction
/// pointer, how much of the input has been consumed, and the output so far.
#[verifier::ext_equal]
pub ghost struct ExecSt {
    pub tape: Seq<u8>,
    pub dp: int,
    pub ip: int,
    pub in_pos: int,
    pub out: Seq<u8>,
}

/// Byte-cell arithmetic: the value of a cell holding `c` after adding
/// `delta`, modulo 256.
pub open spec fn wrap_add(c: u8, delta: int) -> u8 {
    ((c + delta) % 256) as u8
}

/// A repeat count as the number of iterations it asks for; a negative
/// argument asks for none.
pub open spec fn count_of(arg: i64) -> int {
    if arg >= 0 {
        arg as int
    } else {
        0
    }
}

/// Where a scan-until-zero starting at `dp` with the given step ends:
/// the first cell at `dp + k * step` holding zero, or `None` when the scan
/// leaves the tape first (or cannot progress at all).
pub open spec fn scan_spec(tape: Seq<u8>, dp: int, step: int) -> Option<int>
    decreases (if step >= 0 { TAPE_LEN - dp } else { dp }),
{
    if !(0 <= dp < TAPE_LEN) {
        None
    } else if tape[dp] == 0 {
        Some(dp)
    } else if step == 0 {
        None
    } else {
        let dp2 = dp + step;
        if 0 <= dp2 < TAPE_LEN {
            scan_spec(tape, dp2, step)
        } else {
            None
        }
    }
}

/// One dispatch: the state after executing the operation at the
/// instruction pointer, together with `None` to continue or `Some(o)` when
/// the run ends here with outcome `o`.
pub open spec fn step_spec(prog: Seq<BfOp>, inp: Seq<u8>, s: ExecSt) -> (ExecSt, Option<Outcome>) {
    if !(0 <= s.ip < prog.len()) {
        (s, Some(Outcome::Finished))
    } else {
        let op = prog[s.ip];
        let arg = op.argument as int;
        match op.kind {
            BfOpKind::InvalidOp => (ExecSt { ip: s.ip + 1, ..s }, None),
            BfOpKind::IncPtr => {
                let dp2 = s.dp + arg;
                if 0 <= dp2 < TAPE_LEN {
                    (ExecSt { dp: dp2, ip: s.ip + 1, ..s }, None)
                } else {
                    (s, Some(Outcome::OutOfRange))
                }
            },
            BfOpKind::DecPtr => {
                let dp2 = s.dp - arg;
                if 0 <= dp2 < TAPE_LEN {
                    (ExecSt { dp: dp2, ip: s.ip + 1, ..s }, None)
                } else {
                    (s, Some(Outcome::OutOfRange))
                }
            },
            BfOpKind::IncData => (
                ExecSt { tape: s.tape.update(s.dp, wrap_add(s.tape[s.dp], arg)), ip: s.ip + 1, ..s },
                None,
            ),
            BfOpKind::DecData => (
                ExecSt {
                    tape: s.tape.update(s.dp, wrap_add(s.tape[s.dp], 0 - arg)),
                    ip: s.ip + 1,
                    ..s
                },
                None,
            ),
            BfOpKind::ReadStdin => {
                let n = count_of(op.argument);
                if n == 0 {
                    (ExecSt { ip: s.ip + 1, ..s }, None)
                } else if s.in_pos + n <= inp.len() {
                    // each of the n bytes overwrites the cell in turn:
                    // only the last one survives
                    (
                        ExecSt {
                            tape: s.tape.update(s.dp, inp[s.in_pos + n - 1]),
                            in_pos: s.in_pos + n,
                            ip: s.ip + 1,
                            ..s
                        },
                        None,
                    )
                } else if s.in_pos < inp.len() {
                    (
                        ExecSt {
                            tape: s.tape.update(s.dp, inp[inp.len() - 1]),
                            in_pos: inp.len() as int,
                            ..s
                        },
                        Some(Outcome::InputExhausted),
                    )
                } else {
                    (s, Some(Outcome::InputExhausted))
                }
            },
            BfOpKind::WriteStdout => (
                ExecSt {
                    out: s.out + Seq::new(count_of(op.argument) as nat, |k: int| s.tape[s.dp]),
                    ip: s.ip + 1,
                    ..s
                },
                None,
            ),
            BfOpKind::LoopSetToZero => (
                ExecSt { tape: s.tape.update(s.dp, 0u8), ip: s.ip + 1, ..s },
                None,
            ),
            BfOpKind::LoopMovePtr => match scan_spec(s.tape, s.dp, arg) {
                Some(dp2) => (ExecSt { dp: dp2, ip: s.ip + 1, ..s }, None),
                None => (s, Some(Outcome::OutOfRange)),
            },
            BfOpKind::LoopMoveData => {
                if s.tape[s.dp] == 0 {
                    (ExecSt { ip: s.ip + 1, ..s }, None)
                } else {
                    let t = s.dp + arg;
                    if 0 <= t < TAPE_LEN {
                        (
                            ExecSt {
                                tape: s.tape.update(
                                    t,
                                    wrap_add(s.tape[t], s.tape[s.dp] as int),
                                ).update(s.dp, 0u8),
                                ip: s.ip + 1,
                                ..s
                            },
                            None,
                        )
                    } else {
                        (s, Some(Outcome::OutOfRange))
                    }
                }
            },
            BfOpKind::JumpIfDataZero => {
                if s.tape[s.dp] == 0 {
                    if arg >= 0 {
                        (ExecSt { ip: arg + 1, ..s }, None)
                    } else {
                        (s, Some(Outcome::OutOfRange))
                    }
                } else {
                    (ExecSt { ip: s.ip + 1, ..s }, None)
                }
            },
            BfOpKind::JumpIfDataNotZero => {
                if s.tape[s.dp] != 0 {
                    if arg >= 0 {
                        (ExecSt { ip: arg + 1, ..s }, None)
                    } else {
                        (s, Some(Outcome::OutOfRange))
                    }
                } else {
                    (ExecSt { ip: s.ip + 1, ..s }, None)
                }
            },
        }
    }
}

/// A whole run as the iteration of `step_spec`: `Some((t, o))` when the
/// run from `s` halts in state `t` with outcome `o` within `fuel`
/// dispatches, `None` when it is still going after that many.
pub open spec fn run_spec(prog: Seq<BfOp>, inp: Seq<u8>, s: ExecSt, fuel: nat) -> Option<
    (ExecSt, Outcome),
>
    decreases fuel,
{
    if fuel == 0 {
        None
    } else {
        let stepped = step_spec(prog, inp, s);
        match stepped.1 {
            Some(o) => Some((stepped.0, o)),
            None => run_spec(prog, inp, stepped.0, (fuel - 1) as nat),
        }
    }
}

/// A run that halts within some fuel halts in the same state, with the
/// same outcome, under any larger fuel: the fuel bound is only a budget,
/// never part of the result.
pub proof fn lemma_run_spec_monotonic(prog: Seq<BfOp>, inp: Seq<u8>, s: ExecSt, n: nat, m: nat)
    requires
        run_spec(prog, inp, s, n) is Some,
        n <= m,
    ensures
        run_spec(prog, inp, s, m) == run_spec(prog, inp, s, n),
    decreases n,
{
    let stepped = step_spec(prog, inp, s);
    if n > 0 && stepped.1 is None {
        lemma_run_spec_monotonic(prog, inp, stepped.0, (n - 1) as nat, (m - 1) as nat);
    }
}

/// The state a fresh machine starts from: a zeroed tape, both pointers at
/// zero, nothing read and nothing written.
pub open spec fn init_st() -> ExecSt {
    ExecSt {
        tape: Seq::new(TAPE_LEN as nat, |k: int| 0u8),
        dp: 0,
        ip: 0,
        in_pos: 0,
        out: Seq::<u8>::empty(),
    }
}

/// The execution engine: tape, pointers, input cursor and output buffer.
pub struct Machine {
    pub tape: Vec<u8>,
    pub data_ptr: usize,
    pub code_ptr: u64,
    pub input: Vec<u8>,
    pub in_pos: usize,
    pub output: Vec<u8>,
}

/// The state after exactly `n` dispatches, when none of them is final.
pub open spec fn steps_n(prog: Seq<BfOp>, inp: Seq<u8>, s: ExecSt, n: nat) -> Option<ExecSt>
    decreases n,
{
    if n == 0 {
        Some(s)
    } else {
        let stepped = step_spec(prog, inp, s);
        match stepped.1 {
            Some(o) => None,
            None => steps_n(prog, inp, stepped.0, (n - 1) as nat),
        }
    }
}

/// Appending one more non-final dispatch to a finished prefix of a run.
proof fn lemma_steps_n_extend(prog: Seq<BfOp>, inp: Seq<u8>, s: ExecSt, n: nat)
    requires
        steps_n(prog, inp, s, n) is Some,
        step_spec(prog, inp, steps_n(prog, inp, s, n).unwrap()).1 is None,
    ensures
        steps_n(prog, inp, s, n + 1) == Some(
            step_spec(prog, inp, steps_n(prog, inp, s, n).unwrap()).0,
        ),
    decreases n,
{
    let next = step_spec(prog, inp, s).0;
    if n == 0 {
        assert(steps_n(prog, inp, s, 1) == steps_n(prog, inp, next, 0));
    } else {
        assert(steps_n(prog, inp, s, n) == steps_n(prog, inp, next, (n - 1) as nat));
        assert(steps_n(prog, inp, s, n + 1) == steps_n(prog, inp, next, n));
        lemma_steps_n_extend(prog, inp, next, (n - 1) as nat);
    }
}

/// Reduces a signed amount - or, with `negate`, its negation - to the
/// equivalent residue in `0 .. 256` that it adds to a byte cell.
fn byte_delta(arg: i64, negate: bool) -> (d: u8)
    ensures
        (d as int) % 256 == (if negate {
            0 - arg
        } else {
            arg as int
        }) % 256,
{
    if !negate {
        if arg >= 0 {
            let d = ((arg as u64) % 256) as u8;
            proof {
                lemma_small_mod(d as nat, 256);
            }
            d
        } else {
            let m = -(arg + 1);
            let mm = ((m as u64) % 256) as u8;
            let d = 255 - mm;
            proof {
                let mi = m as int;
                let q = mi / 256;
                lemma_fundamental_div_mod(mi, 256);
                assert(arg as int == 256 * (-q - 1) + (255 - mm));
                lemma_mod_multiples_vanish(-q - 1, 255 - mm, 256);
                lemma_small_mod((255 - mm) as nat, 256);
                lemma_small_mod(d as nat, 256);
            }
            d
        }
    } else {
        if arg >= 0 {
            let mm = ((arg as u64) % 256) as u8;
            let d = if mm == 0 {
                0
            } else {
                (256u16 - mm as u16) as u8
            };
            proof {
                let q = (arg as int) / 256;
                lemma_fundamental_div_mod(arg as int, 256);
                if mm == 0 {
                    assert(0 - arg as int == 256 * (-q) + 0);
                    lemma_mod_multiples_vanish(-q, 0, 256);
                    lemma_small_mod(0, 256);
                } else {
                    assert(0 - arg as int == 256 * (-q - 1) + (256 - mm));
                    lemma_mod_multiples_vanish(-q - 1, 256 - mm, 256);
                    lemma_small_mod((256 - mm) as nat, 256);
                }
                lemma_small_mod(d as nat, 256);
            }
            d
        } else {
            let m = -(arg + 1);
            let mm = ((m as u64) % 256) as u8;
            let d = if mm == 255 {
                0
            } else {
                mm + 1
            };
            proof {
                let mi = m as int;
                let q = mi / 256;
                lemma_fundamental_div_mod(mi, 256);
                assert(0 - arg as int == mi + 1);
                if mm == 255 {
                    assert(0 - arg as int == 256 * (q + 1) + 0);
                    lemma_mod_multiples_vanish(q + 1, 0, 256);
                    lemma_small_mod(0, 256);
                } else {
                    assert(0 - arg as int == 256 * q + (mm + 1));
                    lemma_mod_multiples_vanish(q, mm + 1, 256);
                    lemma_small_mod((mm + 1) as nat, 256);
                }
                lemma_small_mod(d as nat, 256);
            }
            d
        }
    }
}

/// Adding congruent amounts to a byte cell gives the same new value.
proof fn lemma_wrap_add_residue(c: u8, a: int, d: u8)
    requires
        (d as int) % 256 == a % 256,
    ensures
        wrap_add(c, a) == ((c as u16 + d as u16) % 256) as u8,
{
    lemma_small_mod(c as nat, 256);
    lemma_add_mod_noop(c as int, a, 256);
    lemma_add_mod_noop(c as int, d as int, 256);
}

impl Machine {
    /// The abstract state this machine is in.
    pub open spec fn st(self) -> ExecSt {
        ExecSt {
            tape: self.tape@,
            dp: self.data_ptr as int,
            ip: self.code_ptr as int,
            in_pos: self.in_pos as int,
            out: self.output@,
        }
    }

    /// Well-formedness: a full-length tape, the data pointer on it, the
    /// input cursor within the input.
    pub open spec fn wf(self) -> bool {
        &&& self.tape@.len() == TAPE_LEN
        &&& self.data_ptr < TAPE_LEN
        &&& self.in_pos <= self.input@.len()
    }

    /// A fresh machine over the given input: zeroed tape, pointers at zero.
    pub fn new(input: Vec<u8>) -> (m: Machine)
        ensures
            m.wf(),
            m.st() == init_st(),
            m.input@ == input@,
    {
        let mut tape: Vec<u8> = Vec::new();
        let mut i: usize = 0;
        while i < TAPE_LEN
            invariant
                i <= TAPE_LEN,
                tape@ =~= Seq::new(i as nat, |k: int| 0u8),
            decreases TAPE_LEN - i,
        {
            tape.push(0u8);
            i = i + 1;
            proof {
                assert(tape@ =~= Seq::new(i as nat, |k: int| 0u8));
            }
        }
        let m = Machine {
            tape,
            data_ptr: 0,
            code_ptr: 0,
            input,
            in_pos: 0,
            output: Vec::new(),
        };
        proof {
            assert(m.st() =~= init_st());
        }
        m
    }

    /// Dispatches exactly one operation: the new state and the returned
    /// halt signal are precisely what the one-step interpreter `step_spec`
    /// assigns to the old state.
    #[verifier::loop_isolation(false)]
    pub fn step(&mut self, ops: &Vec<BfOp>) -> (r: Option<Outcome>)
        requires
            old(self).wf(),
        ensures
            final(self).wf(),
            final(self).input@ == old(self).input@,
            (final(self).st(), r) == step_spec(ops@, old(self).input@, old(self).st()),
    {
        let ghost prog = ops@;
        let ghost inp = self.input@;
        let ghost pre = self.st();

        {
            if self.code_ptr >= ops.len() as u64 {
                proof {
                    assert((self.st(), Some(Outcome::Finished)) =~= step_spec(prog, inp, pre));
                }
                return Some(Outcome::Finished);
            }
            let op = ops[self.code_ptr as usize];
            let arg = op.argument;

            match op.kind {
                BfOpKind::InvalidOp => {
                    self.code_ptr = self.code_ptr + 1;
                },
                BfOpKind::IncPtr => {
                    let curi = self.data_ptr as i64;
                    let ok = if arg >= 0 {
                        arg <= (TAPE_LEN as i64) - 1 - curi
                    } else {
                        curi + arg >= 0
                    };
                    if !ok {
                        proof {
                            assert((self.st(), Some(Outcome::OutOfRange)) =~= step_spec(prog, inp, pre));
                        }
                        return Some(Outcome::OutOfRange);
                    }
                    self.data_ptr = (curi + arg) as usize;
                    self.code_ptr = self.code_ptr + 1;
                },
                BfOpKind::DecPtr => {
                    let curi = self.data_ptr as i64;
                    let ok = if arg >= 0 {
                        arg <= curi
                    } else {
                        arg >= curi - ((TAPE_LEN as i64) - 1)
                    };
                    if !ok {
                        proof {
                            assert((self.st(), Some(Outcome::OutOfRange)) =~= step_spec(prog, inp, pre));
                        }
                        return Some(Outcome::OutOfRange);
                    }
                    self.data_ptr = (curi - arg) as usize;
                    self.code_ptr = self.code_ptr + 1;
                },
                BfOpKind::IncData => {
                    let d = byte_delta(arg, false);
                    let cell = self.tape[self.data_ptr];
                    let v = ((cell as u16) + (d as u16)) % 256;
                    self.tape[self.data_ptr] = v as u8;
                    self.code_ptr = self.code_ptr + 1;
                    proof {
                        lemma_wrap_add_residue(cell, arg as int, d);
                    }
                },
                BfOpKind::DecData => {
                    let d = byte_delta(arg, true);
                    let cell = self.tape[self.data_ptr];
                    let v = ((cell as u16) + (d as u16)) % 256;
                    self.tape[self.data_ptr] = v as u8;
                    self.code_ptr = self.code_ptr + 1;
                    proof {
                        lemma_wrap_add_residue(cell, 0 - arg as int, d);
                    }
                },
                BfOpKind::ReadStdin => {
                    if arg <= 0 {
                        self.code_ptr = self.code_ptr + 1;
                    } else {
                        let avail = self.input.len() - self.in_pos;
                        if (arg as u64) <= (avail as u64) {
                            let n = arg as usize;
                            self.in_pos = self.in_pos + n;
                            let b = self.input[self.in_pos - 1];
                            self.tape[self.data_ptr] = b;
                            self.code_ptr = self.code_ptr + 1;
                        } else {
                            if avail > 0 {
                                let b = self.input[self.input.len() - 1];
                                self.tape[self.data_ptr] = b;
                            }
                            self.in_pos = self.input.len();
                            proof {
                                assert((self.st(), Some(Outcome::InputExhausted)) =~= step_spec(prog, inp, pre));
                            }
                            return Some(Outcome::InputExhausted);
                        }
                    }
                },
                BfOpKind::WriteStdout => {
                    let cell = self.tape[self.data_ptr];
                    let ghost out0 = self.output@;
                    let mut i: i64 = 0;
                    while i < arg
                        invariant
                            0 <= i,
                            arg >= 0 ==> i <= arg,
                            arg < 0 ==> i == 0,
                            self.output@ =~= out0 + Seq::new(i as nat, |k: int| cell),
                            self.tape@ == pre.tape,
                            self.data_ptr as int == pre.dp,
                            self.code_ptr as int == pre.ip,
                            self.in_pos as int == pre.in_pos,
                            self.input@ == inp,
                            self.wf(),
                        decreases arg - i,
                    {
                        self.output.push(cell);
                        i = i + 1;
                        proof {
                            assert(self.output@ =~= out0 + Seq::new(i as nat, |k: int| cell));
                        }
                    }
                    self.code_ptr = self.code_ptr + 1;
                    proof {
                        assert(self.output@ =~= out0 + Seq::new(
                            count_of(op.argument) as nat,
                            |k: int| pre.tape[pre.dp],
                        ));
                    }
                },
                BfOpKind::LoopSetToZero => {
                    self.tape[self.data_ptr] = 0u8;
                    self.code_ptr = self.code_ptr + 1;
                },
                BfOpKind::LoopMovePtr => {
                    let ghost tape_s = self.tape@;
                    let mut cur = self.data_ptr;
                    while self.tape[cur] != 0
                        invariant
                            cur < TAPE_LEN,
                            scan_spec(tape_s, cur as int, arg as int) == scan_spec(
                                tape_s,
                                pre.dp,
                                arg as int,
                            ),
                        decreases (if arg >= 0 { TAPE_LEN - cur } else { cur as int }),
                    {
                        if arg == 0 {
                            proof {
                                assert((self.st(), Some(Outcome::OutOfRange)) =~= step_spec(prog, inp, pre));
                            }
                            return Some(Outcome::OutOfRange);
                        }
                        let curi = cur as i64;
                        let ok = if arg > 0 {
                            arg <= (TAPE_LEN as i64) - 1 - curi
                        } else {
                            curi + arg >= 0
                        };
                        if !ok {
                            proof {
                                assert((self.st(), Some(Outcome::OutOfRange)) =~= step_spec(prog, inp, pre));
                            }
                            return Some(Outcome::OutOfRange);
                        }
                        cur = (curi + arg) as usize;
                    }
                    proof {
                        assert(scan_spec(tape_s, pre.dp, arg as int) == Some(cur as int));
                    }
                    self.data_ptr = cur;
                    self.code_ptr = self.code_ptr + 1;
                },
                BfOpKind::LoopMoveData => {
                    if self.tape[self.data_ptr] != 0 {
                        let curi = self.data_ptr as i64;
                        let ok = if arg >= 0 {
                            arg <= (TAPE_LEN as i64) - 1 - curi
                        } else {
                            curi + arg >= 0
                        };
                        if !ok {
                            proof {
                                assert((self.st(), Some(Outcome::OutOfRange)) =~= step_spec(prog, inp, pre));
                            }
                            return Some(Outcome::OutOfRange);
                        }
                        let t = (curi + arg) as usize;
                        let src = self.tape[self.data_ptr];
                        let tv = self.tape[t];
                        let sum = ((tv as u16) + (src as u16)) % 256;
                        self.tape[t] = sum as u8;
                        self.tape[self.data_ptr] = 0u8;
                        self.code_ptr = self.code_ptr + 1;
                        proof {
                            lemma_small_mod(src as nat, 256);
                            lemma_wrap_add_residue(tv, src as int, src);
                        }
                    } else {
                        self.code_ptr = self.code_ptr + 1;
                    }
                },
                BfOpKind::JumpIfDataZero => {
                    if self.tape[self.data_ptr] == 0 {
                        if arg >= 0 {
                            self.code_ptr = (arg as u64) + 1;
                        } else {
                            proof {
                                assert((self.st(), Some(Outcome::OutOfRange)) =~= step_spec(prog, inp, pre));
                            }
                            return Some(Outcome::OutOfRange);
                        }
                    } else {
                        self.code_ptr = self.code_ptr + 1;
                    }
                },
                BfOpKind::JumpIfDataNotZero => {
                    if self.tape[self.data_ptr] != 0 {
                        if arg >= 0 {
                            self.code_ptr = (arg as u64) + 1;
                        } else {
                            proof {
                                assert((self.st(), Some(Outcome::OutOfRange)) =~= step_spec(prog, inp, pre));
                            }
                            return Some(Outcome::OutOfRange);
                        }
                    } else {
                        self.code_ptr = self.code_ptr + 1;
                    }
                },
            }

            proof {
                assert((self.st(), None::<Outcome>) =~= step_spec(prog, inp, pre));
            }
            None
        }
    }

    /// Dispatches up to `fuel` operations.  `Some(o)` means the run ended
    /// with outcome `o`, exactly as the fuelled interpreter `run_spec`
    /// says; `None` means the program is still going after `fuel` steps,
    /// and the machine stands exactly where `steps_n` puts it.
    #[verifier::loop_isolation(false)]
    pub fn run_for(&mut self, ops: &Vec<BfOp>, fuel: u64) -> (r: Option<Outcome>)
        requires
            old(self).wf(),
        ensures
            final(self).wf(),
            final(self).input@ == old(self).input@,
            match r {
                Some(o) => run_spec(ops@, old(self).input@, old(self).st(), fuel as nat) == Some(
                    (final(self).st(), o),
                ),
                None => run_spec(ops@, old(self).input@, old(self).st(), fuel as nat) is None
                    && steps_n(ops@, old(self).input@, old(self).st(), fuel as nat) == Some(
                    final(self).st(),
                ),
            },
    {
        let ghost prog = ops@;
        let ghost inp = self.input@;
        let ghost st0 = self.st();
        let mut left: u64 = fuel;

        loop
            invariant
                self.wf(),
                self.input@ == inp,
                left <= fuel,
                run_spec(prog, inp, st0, fuel as nat) == run_spec(prog, inp, self.st(), left as nat),
                steps_n(prog, inp, st0, (fuel - left) as nat) == Some(self.st()),
            decreases left,
        {
            if left == 0 {
                return None;
            }
            let ghost pre = self.st();
            let stepped = self.step(ops);
            match stepped {
                Some(o) => {
                    proof {
                        assert(step_spec(prog, inp, pre) == (self.st(), Some(o)));
                        assert(run_spec(prog, inp, pre, left as nat) == Some((self.st(), o)));
                    }
                    return Some(o);
                },
                None => {
                    proof {
                        assert(step_spec(prog, inp, pre) == (self.st(), None::<Outcome>));
                        assert(run_spec(prog, inp, pre, left as nat) == run_spec(
                            prog,
                            inp,
                            self.st(),
                            (left - 1) as nat,
                        ));
                        lemma_steps_n_extend(prog, inp, st0, (fuel - left) as nat);
                    }
                    left = left - 1;
                },
            }
        }
    }
}

/// Translated operations in, output bytes out: builds a fresh machine over
/// the given input and dispatches up to `fuel` operations on it.
pub fn execute(ops: &Vec<BfOp>, input: Vec<u8>, fuel: u64) -> (r: (Machine, Option<Outcome>))
    ensures
        r.0.wf(),
        match r.1 {
            Some(o) => run_spec(ops@, r.0.input@, init_st(), fuel as nat) == Some((r.0.st(), o)),
            None => run_spec(ops@, r.0.input@, init_st(), fuel as nat) is None,
        },
{
    let mut m = Machine::new(input);
    let o = m.run_for(ops, fuel);
    (m, o)
}

} // verus!
