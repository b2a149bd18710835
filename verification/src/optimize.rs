//! The loop optimizer: at each closing bracket the translator hands it the
//! just-completed loop, and it either returns one fused replacement
//! operation or signals "no match", leaving the generic jump pair in place.
//!
//! Exactly three loop shapes are recognized, checked in this order, first
//! match wins:
//! 1. a body of exactly one add or subtract operation fuses to
//!    `LoopSetToZero` (clear the current cell);
//! 2. a body of exactly one pointer move fuses to `LoopMovePtr`
//!    (scan until a zero cell) with a signed step;
//! 3. a body of exactly four operations - a unit add/subtract pair of
//!    opposite polarity around a pointer move there and back of equal
//!    magnitude - fuses to `LoopMoveData` (transfer the current cell) with
//!    a signed offset, its sign taken from the first pointer move.

use vstd::prelude::*;

use crate::ops::{BfOp, BfOpKind};

verus! {

/// Negation on the argument payload; meaningful when `x` is not `i64::MIN`.
pub open spec fn neg_arg(x: i64) -> i64 {
    (0 - x) as i64
}

/// Shape of a fused-kind operation: one that replaces a whole loop.
pub open spec fn is_fused_kind(kind: BfOpKind) -> bool {
    ||| kind == BfOpKind::LoopSetToZero
    ||| kind == BfOpKind::LoopMovePtr
    ||| kind == BfOpKind::LoopMoveData
}

/// The fusion of a loop whose body is the single operation `op`:
/// clear-cell for an add or subtract of either sign, scan-until-zero for a
/// pointer move of either direction, no match otherwise.
pub open spec fn single_op_fusion(op: BfOp) -> Option<BfOp> {
    if op.kind == BfOpKind::IncData || op.kind == BfOpKind::DecData {
        Some(BfOp { kind: BfOpKind::LoopSetToZero, argument: 0 })
    } else if op.kind == BfOpKind::IncPtr {
        Some(BfOp { kind: BfOpKind::LoopMovePtr, argument: op.argument })
    } else if op.kind == BfOpKind::DecPtr {
        Some(BfOp { kind: BfOpKind::LoopMovePtr, argument: neg_arg(op.argument) })
    } else {
        None
    }
}

/// A unit add/subtract pair of opposite polarity, in either order.
pub open spec fn unit_data_pair(a: BfOp, b: BfOp) -> bool {
    &&& a.argument == 1
    &&& b.argument == 1
    &&& ((a.kind == BfOpKind::DecData && b.kind == BfOpKind::IncData) || (a.kind
        == BfOpKind::IncData && b.kind == BfOpKind::DecData))
}

/// A pointer move there and back: equal magnitudes, opposite directions.
pub open spec fn opposite_ptr_pair(a: BfOp, b: BfOp) -> bool {
    &&& a.argument == b.argument
    &&& ((a.kind == BfOpKind::IncPtr && b.kind == BfOpKind::DecPtr) || (a.kind == BfOpKind::DecPtr
        && b.kind == BfOpKind::IncPtr))
}

/// The fusion of a loop whose body is the four operations `b0 b1 b2 b3`:
/// a transfer-cell whenever `b0`/`b2` are a unit data pair and `b1`/`b3` a
/// pointer move there and back; the offset's sign follows the direction of
/// the first pointer move.
pub open spec fn transfer_fusion(b0: BfOp, b1: BfOp, b2: BfOp, b3: BfOp) -> Option<BfOp> {
    if unit_data_pair(b0, b2) && opposite_ptr_pair(b1, b3) {
        Some(
            BfOp {
                kind: BfOpKind::LoopMoveData,
                argument: if b1.kind == BfOpKind::IncPtr {
                    b1.argument
                } else {
                    neg_arg(b1.argument)
                },
            },
        )
    } else {
        None
    }
}

/// What the optimizer decides for the loop whose opening test sits at
/// `loop_start` and whose body runs from `loop_start + 1` to the end of
/// `ops`: a body of one operation may fuse by shape 1 or 2, a body of four
/// by shape 3, and anything else is left alone.
pub open spec fn optimize_loop_spec(ops: Seq<BfOp>, loop_start: int) -> Option<BfOp> {
    if ops.len() - loop_start == 2 {
        single_op_fusion(ops[loop_start + 1])
    } else if ops.len() - loop_start == 5 {
        transfer_fusion(
            ops[loop_start + 1],
            ops[loop_start + 2],
            ops[loop_start + 3],
            ops[loop_start + 4],
        )
    } else {
        None
    }
}

/// The optimizer's answer as the operation sequence that replaces the loop:
/// one fused operation, or empty for "no match".
pub open spec fn fusion_as_seq(f: Option<BfOp>) -> Seq<BfOp> {
    match f {
        Some(op) => seq![op],
        None => Seq::<BfOp>::empty(),
    }
}

/// Inspects the loop whose opening test sits at index `loop_start` and
/// whose body runs to the current end of `ops`; returns the single fused
/// replacement operation, or an empty sequence when no shape matches.
///
/// The arguments of the body operations must leave room for negation in
/// the fused payload, hence the bound on `i64::MIN`.
pub fn optimize_loop(ops: &Vec<BfOp>, loop_start: i64) -> (r: Vec<BfOp>)
    requires
        0 <= loop_start <= ops@.len(),
        forall|i: int| loop_start < i < ops@.len() ==> (#[trigger] ops@[i]).argument != i64::MIN,
    ensures
        r@ == fusion_as_seq(optimize_loop_spec(ops@, loop_start as int)),
{
    let mut new_ops: Vec<BfOp> = Vec::new();
    let ls: usize = loop_start as usize;
    let n: usize = ops.len();

    if n - ls == 2 {
        let repeated_op = ops[ls + 1];
        if repeated_op.kind == BfOpKind::IncData || repeated_op.kind == BfOpKind::DecData {
            new_ops.push(BfOp { kind: BfOpKind::LoopSetToZero, argument: 0 });
        } else if repeated_op.kind == BfOpKind::IncPtr {
            new_ops.push(BfOp { kind: BfOpKind::LoopMovePtr, argument: repeated_op.argument });
        } else if repeated_op.kind == BfOpKind::DecPtr {
            new_ops.push(BfOp { kind: BfOpKind::LoopMovePtr, argument: -repeated_op.argument });
        }
    } else if n - ls == 5 {
        let b0 = ops[ls + 1];
        let b1 = ops[ls + 2];
        let b2 = ops[ls + 3];
        let b3 = ops[ls + 4];
        let data_pair = b0.argument == 1 && b2.argument == 1 && ((b0.kind == BfOpKind::DecData
            && b2.kind == BfOpKind::IncData) || (b0.kind == BfOpKind::IncData && b2.kind
            == BfOpKind::DecData));
        if data_pair && b1.argument == b3.argument {
            if b1.kind == BfOpKind::IncPtr && b3.kind == BfOpKind::DecPtr {
                new_ops.push(BfOp { kind: BfOpKind::LoopMoveData, argument: b1.argument });
            } else if b1.kind == BfOpKind::DecPtr && b3.kind == BfOpKind::IncPtr {
                new_ops.push(BfOp { kind: BfOpKind::LoopMoveData, argument: -b1.argument });
            }
        }
    }

    assert(new_ops@ =~= fusion_as_seq(optimize_loop_spec(ops@, loop_start as int)));
    new_ops
}

} // verus!
