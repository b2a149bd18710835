use bfvm::ops::{bf_op_kind_name, BfOp, BfOpKind};
use bfvm::optimize::optimize_loop;
use bfvm::translate::{translate_code, TranslateError};

fn translated(src: &str) -> Vec<BfOp> {
    translate_code(&src.as_bytes().to_vec()).unwrap()
}

fn op(kind: BfOpKind, argument: i64) -> BfOp {
    BfOp { kind, argument }
}

#[test]
fn empty_source_translates_to_nothing() {
    assert_eq!(translated(""), vec![]);
}

#[test]
fn runs_of_operators_collapse() {
    assert_eq!(translated("+++"), vec![op(BfOpKind::IncData, 3)]);
    assert_eq!(
        translated(">>><<--"),
        vec![
            op(BfOpKind::IncPtr, 3),
            op(BfOpKind::DecPtr, 2),
            op(BfOpKind::DecData, 2),
        ]
    );
}

#[test]
fn comment_bytes_collapse_per_distinct_byte() {
    assert_eq!(
        translated("aab+"),
        vec![
            op(BfOpKind::InvalidOp, 2),
            op(BfOpKind::InvalidOp, 1),
            op(BfOpKind::IncData, 1),
        ]
    );
}

#[test]
fn generic_loop_backpatches_both_targets() {
    // the opening test jumps to its closing jump; the closing jump
    // targets the opening test; both land one past after the dispatch
    assert_eq!(
        translated("[+-]"),
        vec![
            op(BfOpKind::JumpIfDataZero, 3),
            op(BfOpKind::IncData, 1),
            op(BfOpKind::DecData, 1),
            op(BfOpKind::JumpIfDataNotZero, 0),
        ]
    );
}

#[test]
fn clear_loops_fuse() {
    assert_eq!(translated("[-]"), vec![op(BfOpKind::LoopSetToZero, 0)]);
    assert_eq!(translated("[+]"), vec![op(BfOpKind::LoopSetToZero, 0)]);
    assert_eq!(translated("[---]"), vec![op(BfOpKind::LoopSetToZero, 0)]);
}

#[test]
fn scan_loops_fuse_with_signed_step() {
    assert_eq!(translated("[>]"), vec![op(BfOpKind::LoopMovePtr, 1)]);
    assert_eq!(translated("[<<]"), vec![op(BfOpKind::LoopMovePtr, -2)]);
}

#[test]
fn transfer_loops_fuse_with_signed_offset() {
    assert_eq!(translated("[->+<]"), vec![op(BfOpKind::LoopMoveData, 1)]);
    assert_eq!(translated("[-<+>]"), vec![op(BfOpKind::LoopMoveData, -1)]);
    assert_eq!(translated("[->>+<<]"), vec![op(BfOpKind::LoopMoveData, 2)]);
    // the other polarity order: increment first, decrement after
    assert_eq!(translated("[+>-<]"), vec![op(BfOpKind::LoopMoveData, 1)]);
    assert_eq!(translated("[+<->]"), vec![op(BfOpKind::LoopMoveData, -1)]);
}

#[test]
fn deviating_transfer_shapes_stay_generic() {
    // a non-unit data step falls through to the generic loop
    assert_eq!(
        translated("[->++<]"),
        vec![
            op(BfOpKind::JumpIfDataZero, 5),
            op(BfOpKind::DecData, 1),
            op(BfOpKind::IncPtr, 1),
            op(BfOpKind::IncData, 2),
            op(BfOpKind::DecPtr, 1),
            op(BfOpKind::JumpIfDataNotZero, 0),
        ]
    );
    // unequal move magnitudes fall through as well
    assert_eq!(translated("[->+<<]").len(), 6);
}

#[test]
fn fused_inner_loop_is_not_refused_by_outer_pass() {
    // the inner clear loop fuses; the outer loop's body is then a single
    // fused operation, which matches no shape and stays generic
    assert_eq!(
        translated("[[-]]"),
        vec![
            op(BfOpKind::JumpIfDataZero, 2),
            op(BfOpKind::LoopSetToZero, 0),
            op(BfOpKind::JumpIfDataNotZero, 0),
        ]
    );
}

#[test]
fn refusing_a_fused_body_directly() {
    let ops = vec![
        op(BfOpKind::JumpIfDataZero, 0),
        op(BfOpKind::LoopSetToZero, 0),
    ];
    assert_eq!(optimize_loop(&ops, 0), vec![]);
    let ops = vec![
        op(BfOpKind::JumpIfDataZero, 0),
        op(BfOpKind::LoopMoveData, 1),
    ];
    assert_eq!(optimize_loop(&ops, 0), vec![]);
}

#[test]
fn optimize_loop_fuses_a_single_add_body() {
    let ops = vec![op(BfOpKind::JumpIfDataZero, 0), op(BfOpKind::IncData, 5)];
    assert_eq!(optimize_loop(&ops, 0), vec![op(BfOpKind::LoopSetToZero, 0)]);
}

#[test]
fn optimize_loop_fuses_a_transfer_body() {
    let ops = vec![
        op(BfOpKind::JumpIfDataZero, 0),
        op(BfOpKind::DecData, 1),
        op(BfOpKind::DecPtr, 2),
        op(BfOpKind::IncData, 1),
        op(BfOpKind::IncPtr, 2),
    ];
    assert_eq!(optimize_loop(&ops, 0), vec![op(BfOpKind::LoopMoveData, -2)]);
}

#[test]
fn lone_close_bracket_is_unmatched() {
    assert_eq!(
        translate_code(&b"+]".to_vec()),
        Err(TranslateError::UnmatchedCloseBracket { offset: 1 })
    );
    assert_eq!(
        translate_code(&b"]".to_vec()),
        Err(TranslateError::UnmatchedCloseBracket { offset: 0 })
    );
}

#[test]
fn dangling_open_bracket_is_unterminated() {
    assert_eq!(
        translate_code(&b"+[".to_vec()),
        Err(TranslateError::UnterminatedLoop { offset: 1 })
    );
    // the innermost dangling bracket is the one reported
    assert_eq!(
        translate_code(&b"[[".to_vec()),
        Err(TranslateError::UnterminatedLoop { offset: 1 })
    );
}

#[test]
fn kind_mnemonics() {
    assert_eq!(bf_op_kind_name(BfOpKind::IncPtr), '>');
    assert_eq!(bf_op_kind_name(BfOpKind::DecPtr), '<');
    assert_eq!(bf_op_kind_name(BfOpKind::IncData), '+');
    assert_eq!(bf_op_kind_name(BfOpKind::DecData), '-');
    assert_eq!(bf_op_kind_name(BfOpKind::ReadStdin), ',');
    assert_eq!(bf_op_kind_name(BfOpKind::WriteStdout), '.');
    assert_eq!(bf_op_kind_name(BfOpKind::JumpIfDataZero), '[');
    assert_eq!(bf_op_kind_name(BfOpKind::JumpIfDataNotZero), ']');
    assert_eq!(bf_op_kind_name(BfOpKind::LoopSetToZero), 's');
    assert_eq!(bf_op_kind_name(BfOpKind::LoopMovePtr), 'm');
    assert_eq!(bf_op_kind_name(BfOpKind::LoopMoveData), 'd');
    assert_eq!(bf_op_kind_name(BfOpKind::InvalidOp), 'x');
}
