use bfvm::machine::{execute, Machine, Outcome};
use bfvm::ops::BfOp;
use bfvm::ops::BfOpKind;
use bfvm::translate::translate_code;

const FUEL: u64 = 50_000_000;

fn translated(src: &str) -> Vec<BfOp> {
    translate_code(&src.as_bytes().to_vec()).unwrap()
}

fn run_fresh(src: &str, input: &[u8]) -> (Machine, Outcome) {
    let ops = translated(src);
    let (m, o) = execute(&ops, input.to_vec(), FUEL);
    (m, o.expect("program did not halt within the step budget"))
}

#[test]
fn clear_loop_zeroes_the_cell() {
    let (m, o) = run_fresh("+++++[-]", &[]);
    assert_eq!(o, Outcome::Finished);
    assert_eq!(m.tape[0], 0);
}

#[test]
fn clear_loop_zeroes_any_nonzero_start() {
    // the bare loop, run from several starting values, always ends at zero
    let ops = translated("[-]");
    for v in [1u8, 2, 7, 100, 255] {
        let mut m = Machine::new(Vec::new());
        m.tape[0] = v;
        let o = m.run_for(&ops, FUEL);
        assert_eq!(o, Some(Outcome::Finished));
        assert_eq!(m.tape[0], 0);
    }
}

#[test]
fn scan_loop_finds_the_zero_cell() {
    let ops = translated(">[>]");
    let mut m = Machine::new(Vec::new());
    m.tape[0] = 1;
    m.tape[1] = 1;
    m.tape[2] = 0;
    let o = m.run_for(&ops, FUEL);
    assert_eq!(o, Some(Outcome::Finished));
    assert_eq!(m.data_ptr, 2);
}

#[test]
fn transfer_loop_moves_the_value_rightward() {
    let (m, o) = run_fresh("+++[->+<]", &[]);
    assert_eq!(o, Outcome::Finished);
    assert_eq!(m.tape[0], 0);
    assert_eq!(m.tape[1], 3);
}

#[test]
fn transfer_loop_moves_the_value_leftward() {
    // pointer pre-positioned one cell to the right
    let ops = translated("+++[-<+>]");
    let mut m = Machine::new(Vec::new());
    m.data_ptr = 1;
    let o = m.run_for(&ops, FUEL);
    assert_eq!(o, Some(Outcome::Finished));
    assert_eq!(m.tape[1], 0);
    assert_eq!(m.tape[0], 3);
}

#[test]
fn transfer_loop_other_polarity_moves_the_value_too() {
    // increment-first transfer: the same net effect modulo 256
    let (m, o) = run_fresh("+++[+>-<]", &[]);
    assert_eq!(o, Outcome::Finished);
    assert_eq!(m.tape[0], 0);
    assert_eq!(m.tape[1], 3);
}

#[test]
fn hello_world_golden_output() {
    let src = "++++++++[>++++[>++>+++>+++>+<<<<-]>+>+>->>+[<]<-]>>.>---.+++++++..+++.>>.<-.<.+++.------.--------.>>+.>++.";
    let (m, o) = run_fresh(src, &[]);
    assert_eq!(o, Outcome::Finished);
    assert_eq!(m.output, b"Hello World!\n".to_vec());
}

#[test]
fn cell_arithmetic_wraps_modulo_256() {
    let (m, o) = run_fresh("-", &[]);
    assert_eq!(o, Outcome::Finished);
    assert_eq!(m.tape[0], 255);

    let many_pluses = "+".repeat(300);
    let (m, o) = run_fresh(&many_pluses, &[]);
    assert_eq!(o, Outcome::Finished);
    assert_eq!(m.tape[0], 44);
}

#[test]
fn repeated_reads_keep_only_the_last_byte() {
    let (m, o) = run_fresh(",,,", &[1, 2, 3]);
    assert_eq!(o, Outcome::Finished);
    assert_eq!(m.tape[0], 3);
}

#[test]
fn end_of_input_terminates_successfully_without_output() {
    // the third read hits end of input; the following write never runs
    let (m, o) = run_fresh(",,,.", &[1, 2]);
    assert_eq!(o, Outcome::InputExhausted);
    assert_eq!(m.output, Vec::<u8>::new());
}

#[test]
fn read_on_empty_input_terminates_immediately() {
    let (m, o) = run_fresh(",", &[]);
    assert_eq!(o, Outcome::InputExhausted);
    assert_eq!(m.tape[0], 0);
}

#[test]
fn write_repeats_emit_the_cell_each_time() {
    let (m, o) = run_fresh("+..", &[]);
    assert_eq!(o, Outcome::Finished);
    assert_eq!(m.output, vec![1, 1]);
}

#[test]
fn moving_left_of_the_tape_is_out_of_range() {
    let (_, o) = run_fresh("<", &[]);
    assert_eq!(o, Outcome::OutOfRange);
}

#[test]
fn scanning_off_the_tape_is_out_of_range() {
    // cell zero is non-zero and the scan walks leftward off the edge
    let (m, o) = run_fresh("+[<]", &[]);
    assert_eq!(o, Outcome::OutOfRange);
    // the failed scan leaves the data pointer where it stood
    assert_eq!(m.data_ptr, 0);
}

#[test]
fn an_endless_loop_spends_all_fuel() {
    let ops = translated("+[]");
    let (_, o) = execute(&ops, Vec::new(), 10_000);
    assert_eq!(o, None);
}

#[test]
fn optimized_and_generic_loops_agree_on_tape_and_output() {
    // the same source, once with fusion (translated) and once as
    // hand-built generic operation pairs with no fused shapes
    let fused = translated("+++++[-]>++[<]");
    let generic = vec![
        BfOp { kind: BfOpKind::IncData, argument: 5 },
        BfOp { kind: BfOpKind::JumpIfDataZero, argument: 3 },
        BfOp { kind: BfOpKind::DecData, argument: 1 },
        BfOp { kind: BfOpKind::JumpIfDataNotZero, argument: 1 },
        BfOp { kind: BfOpKind::IncPtr, argument: 1 },
        BfOp { kind: BfOpKind::IncData, argument: 2 },
        BfOp { kind: BfOpKind::JumpIfDataZero, argument: 8 },
        BfOp { kind: BfOpKind::DecPtr, argument: 1 },
        BfOp { kind: BfOpKind::JumpIfDataNotZero, argument: 6 },
    ];
    let (mf, of) = execute(&fused, Vec::new(), FUEL);
    let (mg, og) = execute(&generic, Vec::new(), FUEL);
    assert_eq!(of, og);
    assert_eq!(mf.tape, mg.tape);
    assert_eq!(mf.data_ptr, mg.data_ptr);
    assert_eq!(mf.output, mg.output);
}
