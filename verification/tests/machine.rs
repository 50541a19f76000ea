use bm::Instruction;
use bm::InterpreterErr;
use bm::BM;
use bm::BM_PROGRAM_CAPACITY;
use bm::BM_STACK_CAPACITY;

fn machine(program: &[Instruction]) -> BM {
    let mut bm = BM::default();
    bm.load_program_from_memory(program);
    bm
}

fn run(program: &[Instruction]) -> (BM, Result<(), InterpreterErr>, Vec<i64>) {
    let mut bm = machine(program);
    let mut out = Vec::new();
    let r = bm.execute_program(None, &mut out);
    (bm, r, out)
}

fn binary(inst: Instruction, a: i64, b: i64) -> Vec<i64> {
    let (bm, r, _) = run(&[Instruction::Push(a), Instruction::Push(b), inst, Instruction::Halt]);
    assert_eq!(r, Ok(()));
    assert!(bm.is_halted());
    bm.stack().clone()
}

#[test]
fn new_machine_is_empty_and_running() {
    let bm = BM::default();
    assert!(!bm.is_halted());
    assert_eq!(bm.ip(), 0);
    assert!(bm.stack().is_empty());
    assert!(bm.program().is_empty());
}

#[test]
fn capacities_are_1024() {
    assert_eq!(BM_STACK_CAPACITY, 1024);
    assert_eq!(BM_PROGRAM_CAPACITY, 1024);
}

#[test]
fn push_inst_appends() {
    let mut bm = BM::default();
    bm.push_inst(Instruction::Push(1));
    bm.push_inst(Instruction::Push(2));
    assert_eq!(bm.program(), &vec![Instruction::Push(1), Instruction::Push(2)]);
    assert_eq!(bm.ip(), 0);
    assert!(bm.stack().is_empty());
}

#[test]
fn loading_replaces_the_program_and_restarts() {
    let (mut bm, r, _) = run(&[Instruction::Push(7), Instruction::Halt]);
    assert_eq!(r, Ok(()));
    assert!(bm.is_halted());
    assert_eq!(bm.ip(), 1);
    bm.load_program_from_memory(&[Instruction::Nop, Instruction::Nop, Instruction::Halt]);
    assert!(!bm.is_halted());
    assert_eq!(bm.ip(), 0);
    assert_eq!(bm.stack(), &vec![7]);
    assert_eq!(bm.program(), &vec![Instruction::Nop, Instruction::Nop, Instruction::Halt]);
}

#[test]
fn program_of_full_capacity_loads() {
    let program = vec![Instruction::Nop; BM_PROGRAM_CAPACITY];
    let bm = machine(&program);
    assert_eq!(bm.program().len(), 1024);
}

#[test]
fn sum_of_two_and_three() {
    let (bm, r, out) = run(&[
        Instruction::Push(2),
        Instruction::Push(3),
        Instruction::Plus,
        Instruction::Halt,
    ]);
    assert_eq!(r, Ok(()));
    assert_eq!(bm.stack(), &vec![5]);
    assert!(bm.is_halted());
    assert_eq!(bm.ip(), 3);
    assert!(out.is_empty());
}

#[test]
fn nop_moves_on() {
    let mut bm = machine(&[Instruction::Nop, Instruction::Halt]);
    assert_eq!(bm.execute_instruction(), Ok(None));
    assert_eq!(bm.ip(), 1);
    assert!(bm.stack().is_empty());
    assert!(!bm.is_halted());
}

#[test]
fn halt_stops_and_stays() {
    let mut bm = machine(&[Instruction::Push(1), Instruction::Halt, Instruction::Push(2)]);
    assert_eq!(bm.execute_instruction(), Ok(None));
    assert_eq!(bm.execute_instruction(), Ok(None));
    assert!(bm.is_halted());
    assert_eq!(bm.ip(), 1);
    assert_eq!(bm.execute_instruction(), Ok(None));
    assert!(bm.is_halted());
    assert_eq!(bm.ip(), 1);
    assert_eq!(bm.stack(), &vec![1]);
    let mut out = Vec::new();
    assert_eq!(bm.execute_program(None, &mut out), Ok(()));
    assert_eq!(bm.ip(), 1);
    assert_eq!(bm.stack(), &vec![1]);
}

#[test]
fn arithmetic_takes_two_and_leaves_one() {
    assert_eq!(binary(Instruction::Plus, 20, 22), vec![42]);
    assert_eq!(binary(Instruction::Minus, 20, 22), vec![-2]);
    assert_eq!(binary(Instruction::Minus, 22, 20), vec![2]);
    assert_eq!(binary(Instruction::Mult, 6, -7), vec![-42]);
    assert_eq!(binary(Instruction::Div, 42, 5), vec![8]);
    assert_eq!(binary(Instruction::Eq, 3, 3), vec![1]);
    assert_eq!(binary(Instruction::Eq, 3, 4), vec![0]);
}

#[test]
fn arithmetic_leaves_lower_cells_alone() {
    let (bm, r, _) = run(&[
        Instruction::Push(9),
        Instruction::Push(8),
        Instruction::Push(2),
        Instruction::Push(3),
        Instruction::Mult,
        Instruction::Halt,
    ]);
    assert_eq!(r, Ok(()));
    assert_eq!(bm.stack(), &vec![9, 8, 6]);
}

#[test]
fn division_rounds_toward_zero() {
    assert_eq!(binary(Instruction::Div, 7, 2), vec![3]);
    assert_eq!(binary(Instruction::Div, -7, 2), vec![-3]);
    assert_eq!(binary(Instruction::Div, 7, -2), vec![-3]);
    assert_eq!(binary(Instruction::Div, -7, -2), vec![3]);
    assert_eq!(binary(Instruction::Div, 1, 2), vec![0]);
    assert_eq!(binary(Instruction::Div, -1, 2), vec![0]);
    assert_eq!(binary(Instruction::Div, 0, -5), vec![0]);
    assert_eq!(binary(Instruction::Div, i64::MIN, 1), vec![i64::MIN]);
    assert_eq!(binary(Instruction::Div, i64::MIN, 2), vec![i64::MIN / 2]);
    assert_eq!(binary(Instruction::Div, i64::MAX, -1), vec![-i64::MAX]);
    for a in [-9i64, -8, -1, 0, 1, 8, 9, i64::MAX, i64::MIN + 1] {
        for b in [-4i64, -3, -1, 1, 3, 4, i64::MAX, i64::MIN] {
            assert_eq!(binary(Instruction::Div, a, b), vec![a / b], "{} / {}", a, b);
        }
    }
}

#[test]
fn division_by_zero_fails_and_changes_nothing() {
    let mut bm = machine(&[Instruction::Push(7), Instruction::Push(0), Instruction::Div]);
    assert_eq!(bm.execute_instruction(), Ok(None));
    assert_eq!(bm.execute_instruction(), Ok(None));
    assert_eq!(bm.execute_instruction(), Err(InterpreterErr::DivideByZero));
    assert_eq!(bm.stack(), &vec![7, 0]);
    assert_eq!(bm.ip(), 2);
    assert!(!bm.is_halted());
    let (bm, r, _) = run(&[Instruction::Push(0), Instruction::Push(0), Instruction::Div]);
    assert_eq!(r, Err(InterpreterErr::DivideByZero));
    assert_eq!(bm.stack(), &vec![0, 0]);
}

#[test]
fn results_that_do_not_fit_wrap() {
    assert_eq!(binary(Instruction::Plus, i64::MAX, 1), vec![i64::MIN]);
    assert_eq!(binary(Instruction::Plus, i64::MIN, -1), vec![i64::MAX]);
    assert_eq!(binary(Instruction::Minus, i64::MIN, 1), vec![i64::MAX]);
    assert_eq!(binary(Instruction::Minus, 0, i64::MIN), vec![i64::MIN]);
    assert_eq!(binary(Instruction::Mult, i64::MAX, 2), vec![-2]);
    assert_eq!(binary(Instruction::Mult, i64::MIN, -1), vec![i64::MIN]);
    assert_eq!(binary(Instruction::Mult, 1 << 32, 1 << 32), vec![0]);
    assert_eq!(binary(Instruction::Div, i64::MIN, -1), vec![i64::MIN]);
    assert_eq!(
        binary(Instruction::Mult, 3_037_000_500, 3_037_000_500),
        vec![3_037_000_500i64.wrapping_mul(3_037_000_500)]
    );
}

#[test]
fn two_operands_are_needed() {
    for inst in [
        Instruction::Plus,
        Instruction::Minus,
        Instruction::Mult,
        Instruction::Div,
        Instruction::Eq,
    ] {
        let mut bm = machine(&[inst]);
        assert_eq!(bm.execute_instruction(), Err(InterpreterErr::StackUnderflow));
        assert!(bm.stack().is_empty());
        assert_eq!(bm.ip(), 0);
        let mut bm = machine(&[Instruction::Push(0), inst]);
        assert_eq!(bm.execute_instruction(), Ok(None));
        assert_eq!(bm.execute_instruction(), Err(InterpreterErr::StackUnderflow));
        assert_eq!(bm.stack(), &vec![0]);
        assert_eq!(bm.ip(), 1);
    }
}

#[test]
fn dup_copies_a_cell_counted_from_the_top() {
    let (bm, r, _) = run(&[
        Instruction::Push(10),
        Instruction::Push(20),
        Instruction::Push(30),
        Instruction::Dup(0),
        Instruction::Dup(3),
        Instruction::Dup(2),
        Instruction::Halt,
    ]);
    assert_eq!(r, Ok(()));
    assert_eq!(bm.stack(), &vec![10, 20, 30, 30, 10, 30]);
}

#[test]
fn dup_refuses_a_negative_operand_first() {
    let (bm, r, _) = run(&[Instruction::Dup(-1)]);
    assert_eq!(r, Err(InterpreterErr::IllegalOperand));
    assert!(bm.stack().is_empty());
    let (bm, r, _) = run(&[Instruction::Push(1), Instruction::Dup(i64::MIN)]);
    assert_eq!(r, Err(InterpreterErr::IllegalOperand));
    assert_eq!(bm.stack(), &vec![1]);
    assert_eq!(bm.ip(), 1);
}

#[test]
fn dup_needs_the_cell_to_exist() {
    let (_, r, _) = run(&[Instruction::Dup(0)]);
    assert_eq!(r, Err(InterpreterErr::StackUnderflow));
    let (bm, r, _) = run(&[Instruction::Push(1), Instruction::Dup(1)]);
    assert_eq!(r, Err(InterpreterErr::StackUnderflow));
    assert_eq!(bm.stack(), &vec![1]);
    let (_, r, _) = run(&[Instruction::Push(1), Instruction::Dup(i64::MAX)]);
    assert_eq!(r, Err(InterpreterErr::StackUnderflow));
}

#[test]
fn dup_on_a_full_stack_overflows() {
    let mut bm = machine(&[Instruction::Push(1), Instruction::Jump(Some(0))]);
    let mut out = Vec::new();
    assert_eq!(bm.execute_program(None, &mut out), Err(InterpreterErr::StackOverflow));
    assert_eq!(bm.stack().len(), 1024);
    bm.load_program_from_memory(&[Instruction::Dup(0)]);
    assert_eq!(bm.execute_instruction(), Err(InterpreterErr::StackOverflow));
    bm.load_program_from_memory(&[Instruction::Dup(1024)]);
    assert_eq!(bm.execute_instruction(), Err(InterpreterErr::StackUnderflow));
    bm.load_program_from_memory(&[Instruction::Dup(-1)]);
    assert_eq!(bm.execute_instruction(), Err(InterpreterErr::IllegalOperand));
    assert_eq!(bm.stack().len(), 1024);
}

#[test]
fn one_push_too_many_overflows() {
    let mut bm = machine(&[Instruction::Push(5), Instruction::Jump(Some(0))]);
    let mut pushes = 0;
    loop {
        let r = bm.execute_instruction();
        if bm.ip() == 1 {
            pushes += 1;
            assert_eq!(r, Ok(None));
            assert_eq!(bm.stack().len(), pushes);
        } else if r.is_err() {
            break;
        }
    }
    assert_eq!(pushes, 1024);
    assert_eq!(bm.execute_instruction(), Err(InterpreterErr::StackOverflow));
    assert_eq!(bm.stack().len(), 1024);
    assert_eq!(bm.ip(), 0);
    assert!(bm.stack().iter().all(|v| *v == 5));
    assert!(!bm.is_halted());
}

#[test]
fn jump_goes_to_its_address() {
    let mut bm = machine(&[Instruction::Jump(Some(2)), Instruction::Push(1), Instruction::Halt]);
    assert_eq!(bm.execute_instruction(), Ok(None));
    assert_eq!(bm.ip(), 2);
    assert!(bm.stack().is_empty());
    assert_eq!(bm.execute_instruction(), Ok(None));
    assert!(bm.is_halted());
}

#[test]
fn jump_if_jumps_on_one_and_takes_it_off() {
    let mut bm = machine(&[
        Instruction::Push(8),
        Instruction::Push(1),
        Instruction::JumpIf(Some(7)),
    ]);
    assert_eq!(bm.execute_instruction(), Ok(None));
    assert_eq!(bm.execute_instruction(), Ok(None));
    assert_eq!(bm.execute_instruction(), Ok(None));
    assert_eq!(bm.stack(), &vec![8]);
    assert_eq!(bm.ip(), 7);
}

#[test]
fn jump_if_falls_through_on_anything_else_and_keeps_it() {
    for top in [0i64, 2, -1, i64::MAX, i64::MIN] {
        let mut bm = machine(&[
            Instruction::Push(8),
            Instruction::Push(top),
            Instruction::JumpIf(Some(7)),
        ]);
        assert_eq!(bm.execute_instruction(), Ok(None));
        assert_eq!(bm.execute_instruction(), Ok(None));
        assert_eq!(bm.execute_instruction(), Ok(None));
        assert_eq!(bm.stack(), &vec![8, top]);
        assert_eq!(bm.ip(), 3);
    }
}

#[test]
fn jump_if_needs_a_cell() {
    let mut bm = machine(&[Instruction::JumpIf(Some(0))]);
    assert_eq!(bm.execute_instruction(), Err(InterpreterErr::StackUnderflow));
    assert_eq!(bm.ip(), 0);
}

#[test]
fn print_debug_hands_the_top_out() {
    let mut bm = machine(&[Instruction::Push(3), Instruction::Push(4), Instruction::PrintDebug]);
    assert_eq!(bm.execute_instruction(), Ok(None));
    assert_eq!(bm.execute_instruction(), Ok(None));
    assert_eq!(bm.execute_instruction(), Ok(Some(4)));
    assert_eq!(bm.stack(), &vec![3]);
    assert_eq!(bm.ip(), 3);
    let mut bm = machine(&[Instruction::PrintDebug]);
    assert_eq!(bm.execute_instruction(), Err(InterpreterErr::StackUnderflow));
}

#[test]
fn run_collects_what_was_handed_out() {
    let mut bm = machine(&[
        Instruction::Push(1),
        Instruction::PrintDebug,
        Instruction::Push(2),
        Instruction::Push(3),
        Instruction::PrintDebug,
        Instruction::PrintDebug,
        Instruction::PrintDebug,
        Instruction::Halt,
    ]);
    let mut out = vec![99];
    assert_eq!(bm.execute_program(None, &mut out), Err(InterpreterErr::StackUnderflow));
    assert_eq!(out, vec![99, 1, 3, 2]);
    assert_eq!(bm.ip(), 6);
    assert!(bm.stack().is_empty());
}

#[test]
fn instruction_pointer_outside_the_program_is_reported() {
    let mut bm = BM::default();
    assert_eq!(bm.execute_instruction(), Err(InterpreterErr::IllegalInstructionAccess(0)));
    let (bm, r, _) = run(&[Instruction::Push(1)]);
    assert_eq!(r, Err(InterpreterErr::IllegalInstructionAccess(1)));
    assert_eq!(bm.stack(), &vec![1]);
    let (bm, r, _) = run(&[Instruction::Jump(Some(-3))]);
    assert_eq!(r, Err(InterpreterErr::IllegalInstructionAccess(-3)));
    assert_eq!(bm.ip(), -3);
    let (_, r, _) = run(&[Instruction::Jump(Some(i64::MAX))]);
    assert_eq!(r, Err(InterpreterErr::IllegalInstructionAccess(i64::MAX)));
    let (_, r, _) = run(&[Instruction::Jump(Some(1))]);
    assert_eq!(r, Err(InterpreterErr::IllegalInstructionAccess(1)));
}

#[test]
fn run_of_no_steps_does_nothing() {
    let mut bm = machine(&[Instruction::Push(1), Instruction::Halt]);
    let mut out = Vec::new();
    assert_eq!(bm.execute_program(Some(0), &mut out), Ok(()));
    assert!(!bm.is_halted());
    assert_eq!(bm.ip(), 0);
    assert!(bm.stack().is_empty());
    assert!(out.is_empty());
    let mut bm = machine(&[Instruction::Plus]);
    assert_eq!(bm.execute_program(Some(0), &mut out), Ok(()));
}

#[test]
fn run_stops_when_the_steps_are_used_up() {
    let mut bm = machine(&[Instruction::Push(1), Instruction::Jump(Some(0))]);
    let mut out = Vec::new();
    assert_eq!(bm.execute_program(Some(5), &mut out), Ok(()));
    assert!(!bm.is_halted());
    assert_eq!(bm.stack(), &vec![1, 1, 1]);
    assert_eq!(bm.ip(), 1);
    assert_eq!(bm.execute_program(Some(1), &mut out), Ok(()));
    assert_eq!(bm.ip(), 0);
    assert_eq!(bm.stack(), &vec![1, 1, 1]);
}

#[test]
fn run_with_steps_to_spare_ends_at_halt() {
    let mut bm = machine(&[Instruction::Push(1), Instruction::Halt, Instruction::Push(2)]);
    let mut out = Vec::new();
    assert_eq!(bm.execute_program(Some(2), &mut out), Ok(()));
    assert!(bm.is_halted());
    let mut bm = machine(&[Instruction::Push(1), Instruction::Halt, Instruction::Push(2)]);
    assert_eq!(bm.execute_program(Some(1000), &mut out), Ok(()));
    assert!(bm.is_halted());
    assert_eq!(bm.stack(), &vec![1]);
}

#[test]
fn run_returns_the_first_error() {
    let mut bm = machine(&[
        Instruction::Push(1),
        Instruction::Push(0),
        Instruction::Div,
        Instruction::Plus,
    ]);
    let mut out = Vec::new();
    assert_eq!(bm.execute_program(Some(2), &mut out), Ok(()));
    assert_eq!(bm.execute_program(Some(2), &mut out), Err(InterpreterErr::DivideByZero));
    assert_eq!(bm.ip(), 2);
    assert_eq!(bm.stack(), &vec![1, 0]);
}

#[test]
fn depth_is_pushes_less_pops() {
    let program = [
        Instruction::Push(4),
        Instruction::Push(1),
        Instruction::Dup(1),
        Instruction::Nop,
        Instruction::Plus,
        Instruction::Push(0),
        Instruction::JumpIf(Some(0)),
        Instruction::Push(1),
        Instruction::JumpIf(Some(9)),
        Instruction::Halt,
        Instruction::PrintDebug,
        Instruction::Eq,
        Instruction::Jump(Some(9)),
    ];
    let effect = [1i64, 1, 1, 0, -1, 1, 0, 1, -1, 0, -1, -1, 0];
    let mut bm = machine(&program);
    bm.load_program_from_memory(&program);
    let mut depth: i64 = 0;
    let mut steps = 0;
    while !bm.is_halted() {
        let at = bm.ip() as usize;
        assert_eq!(bm.execute_instruction().map(|_| ()), Ok(()));
        depth += effect[at];
        assert_eq!(bm.stack().len() as i64, depth);
        assert!(bm.stack().len() <= BM_STACK_CAPACITY);
        steps += 1;
    }
    assert_eq!(steps, 10);
    assert_eq!(bm.stack(), &vec![4, 5, 0]);
}

#[test]
fn countdown_loop_runs_to_its_end() {
    let (bm, r, out) = run(&[
        Instruction::Push(3),
        Instruction::Dup(0),
        Instruction::PrintDebug,
        Instruction::Push(1),
        Instruction::Minus,
        Instruction::Dup(0),
        Instruction::Push(0),
        Instruction::Eq,
        Instruction::JumpIf(Some(11)),
        Instruction::Plus,
        Instruction::Jump(Some(1)),
        Instruction::Halt,
    ]);
    assert_eq!(r, Ok(()));
    assert_eq!(out, vec![3, 2, 1]);
    assert_eq!(bm.stack(), &vec![0]);
    assert!(bm.is_halted());
}

#[test]
fn stack_is_shown_from_the_bottom() {
    let bm = BM::default();
    assert_eq!(bm.dump_stack(), "Stack: \n   [empty]\n");
    let (bm, _, _) = run(&[
        Instruction::Push(1),
        Instruction::Push(-20),
        Instruction::Push(i64::MIN),
        Instruction::Halt,
    ]);
    assert_eq!(bm.dump_stack(), "Stack: \n   1\n   -20\n   -9223372036854775808\n");
}

#[test]
fn program_is_listed_one_instruction_to_a_line() {
    let bm = BM::default();
    assert_eq!(bm.program_to_asm(), "");
    let bm = machine(&[
        Instruction::Push(1),
        Instruction::JumpIf(Some(3)),
        Instruction::Jump(Some(0)),
        Instruction::PrintDebug,
        Instruction::Halt,
    ]);
    assert_eq!(bm.program_to_asm(), "push 1\njmpif 3\njmp 0\nprint_debug\nhalt\n");
}

#[test]
fn interpreter_errors_in_words() {
    assert_eq!(InterpreterErr::StackOverflow.message(), "Err::StackOverflow");
    assert_eq!(InterpreterErr::StackUnderflow.message(), "Err::StackUnderflow");
    assert_eq!(InterpreterErr::DivideByZero.message(), "Err::DivideByZero");
    assert_eq!(
        InterpreterErr::IllegalInstructionAccess(-12).message(),
        "Err::IllegalInstructionAccess(-12)"
    );
    assert_eq!(
        InterpreterErr::IllegalInstructionAccess(1024).message(),
        "Err::IllegalInstructionAccess(1024)"
    );
    assert_eq!(InterpreterErr::IllegalOperand.message(), "Err::IllegalOperand");
}
