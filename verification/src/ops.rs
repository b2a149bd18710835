//! The operation alphabet of the compiled form: a kind tag plus one
//! integer argument whose meaning depends on the kind.

use vstd::prelude::*;

verus! {

/// The kind tag of one compiled operation.
///
/// The first six operator kinds carry a repeat count; the two jump kinds
/// carry a target index into the operation sequence; the three fused kinds
/// replace whole recognized loops (`LoopMovePtr` and `LoopMoveData` carry a
/// signed step or offset).  `InvalidOp` stands for a run of bytes that are
/// no operator at all; it is dispatched as a no-op.
#[derive(Clone, Copy, PartialEq, Eq, Structural, Debug)]
pub enum BfOpKind {
    InvalidOp,
    IncPtr,
    DecPtr,
    IncData,
    DecData,
    ReadStdin,
    WriteStdout,
    LoopSetToZero,
    LoopMovePtr,
    LoopMoveData,
    JumpIfDataZero,
    JumpIfDataNotZero,
}

/// One compiled instruction.
#[derive(Clone, Copy, PartialEq, Eq, Structural, Debug)]
pub struct BfOp {
    pub kind: BfOpKind,
    pub argument: i64,
}

/// The one-character mnemonic of each operation kind.
pub open spec fn op_kind_name(kind: BfOpKind) -> char {
    match kind {
        BfOpKind::IncPtr => '>',
        BfOpKind::DecPtr => '<',
        BfOpKind::IncData => '+',
        BfOpKind::DecData => '-',
        BfOpKind::ReadStdin => ',',
        BfOpKind::WriteStdout => '.',
        BfOpKind::JumpIfDataZero => '[',
        BfOpKind::JumpIfDataNotZero => ']',
        BfOpKind::LoopSetToZero => 's',
        BfOpKind::LoopMovePtr => 'm',
        BfOpKind::LoopMoveData => 'd',
        BfOpKind::InvalidOp => 'x',
    }
}

/// Returns the one-character mnemonic of an operation kind, for diagnostics.
pub fn bf_op_kind_name(kind: BfOpKind) -> (c: char)
    ensures
        c == op_kind_name(kind),
{
    match kind {
        BfOpKind::IncPtr => '>',
        BfOpKind::DecPtr => '<',
        BfOpKind::IncData => '+',
        BfOpKind::DecData => '-',
        BfOpKind::ReadStdin => ',',
        BfOpKind::WriteStdout => '.',
        BfOpKind::JumpIfDataZero => '[',
        BfOpKind::JumpIfDataNotZero => ']',
        BfOpKind::LoopSetToZero => 's',
        BfOpKind::LoopMovePtr => 'm',
        BfOpKind::LoopMoveData => 'd',
        BfOpKind::InvalidOp => 'x',
    }
}

} // verus!
