use hello_old::rustyvm::{
    run, run_checked, set_vm_slow, vm_slow_delay_micros, StepOutcome, Vm, VmPace, OP_ADD, OP_AND,
    OP_DROP, OP_DUP, OP_HALT, OP_NOT, OP_OPAQUE_LABEL, OP_OR, OP_PUSH1, OP_PUSH8, OP_PUSHKEY,
    OP_ROTL, OP_ROTR, OP_SUB, OP_SWAP, OP_WRMEM, OP_XOR,
};
use hello_old::splitmix::SplitMix;
use hello_old::vmgen::gen_vm_program;

/// Runs a program on a little material and gives the first four output bytes.
fn outcome(prog: &[u8]) -> (Option<bool>, [u8; 4]) {
    let mut out = [0u8; 4];
    let r = run_checked(prog, &[10, 20, 30, 40], &mut out);
    (r, out)
}

#[test]
fn arithmetic_of_the_machine() {
    let two = |op: u8| vec![OP_PUSH1, 12, OP_PUSH1, 10, op, OP_WRMEM, 0, OP_HALT];
    assert_eq!(outcome(&two(OP_XOR)), (Some(true), [6, 0, 0, 0]));
    assert_eq!(outcome(&two(OP_ADD)), (Some(true), [22, 0, 0, 0]));
    assert_eq!(outcome(&two(OP_SUB)), (Some(true), [2, 0, 0, 0]));
    assert_eq!(outcome(&two(OP_AND)), (Some(true), [8, 0, 0, 0]));
    assert_eq!(outcome(&two(OP_OR)), (Some(true), [14, 0, 0, 0]));
}

#[test]
fn stack_of_the_machine() {
    let swap = [OP_PUSH1, 1, OP_PUSH1, 2, OP_SWAP, OP_WRMEM, 0, OP_WRMEM, 1, OP_HALT];
    assert_eq!(outcome(&swap), (Some(true), [1, 2, 0, 0]));
    let dup = [OP_PUSH1, 5, OP_DUP, OP_WRMEM, 0, OP_WRMEM, 1, OP_HALT];
    assert_eq!(outcome(&dup), (Some(true), [5, 5, 0, 0]));
    let drop = [OP_PUSH1, 5, OP_PUSH1, 6, OP_DROP, OP_WRMEM, 3, OP_HALT];
    assert_eq!(outcome(&drop), (Some(true), [0, 0, 0, 5]));
    let not = [OP_PUSH1, 0x0f, OP_NOT, OP_WRMEM, 0, OP_HALT];
    assert_eq!(outcome(&not), (Some(true), [0xf0, 0, 0, 0]));
}

#[test]
fn rotations_and_wide_constants() {
    let mut prog = vec![OP_PUSH8];
    prog.extend_from_slice(&0x8000_0000_0000_0001u64.to_le_bytes());
    prog.extend_from_slice(&[OP_ROTL, 1, OP_WRMEM, 0, OP_HALT]);
    assert_eq!(outcome(&prog), (Some(true), [3, 0, 0, 0]));
    let back = [OP_PUSH1, 3, OP_ROTR, 1, OP_ROTL, 1, OP_WRMEM, 0, OP_HALT];
    assert_eq!(outcome(&back), (Some(true), [3, 0, 0, 0]));
}

#[test]
fn material_is_read_by_index() {
    let prog = [OP_PUSHKEY, 2, OP_WRMEM, 0, OP_PUSHKEY, 0, OP_WRMEM, 1, OP_HALT];
    assert_eq!(outcome(&prog), (Some(true), [30, 10, 0, 0]));
}

#[test]
fn unknown_instructions_are_not_valid() {
    assert_eq!(outcome(&[0x7f, OP_HALT]).0, Some(false));
}

#[test]
fn labels_are_skipped() {
    let prog = [OP_OPAQUE_LABEL, 9, 9, OP_PUSH1, 4, OP_WRMEM, 0, OP_HALT];
    assert_eq!(outcome(&prog), (Some(true), [4, 0, 0, 0]));
}

#[test]
fn a_missing_cell_is_a_fault() {
    assert_eq!(outcome(&[OP_XOR, OP_HALT]).0, None);
    assert_eq!(outcome(&[OP_DUP, OP_HALT]).0, None);
    let mut prog = Vec::new();
    for _ in 0..17 {
        prog.extend_from_slice(&[OP_PUSH1, 1]);
    }
    assert_eq!(outcome(&prog).0, None);
}

#[test]
fn stepping_is_running() {
    let prog = [OP_PUSH1, 5, OP_WRMEM, 0, OP_HALT];
    let mut out = [0u8; 4];
    let mut vm = Vm::new();
    assert_eq!(vm.step(&prog, &[], &mut out), StepOutcome::Ran);
    assert_eq!(vm.step(&prog, &[], &mut out), StepOutcome::Ran);
    assert_eq!(out, [5, 0, 0, 0]);
    assert_eq!(vm.step(&prog, &[], &mut out), StepOutcome::Done);
    assert!(vm.ok());
}

#[test]
fn a_slow_machine_waits() {
    let mut pace = VmPace { slow: false };
    assert_eq!(vm_slow_delay_micros(&pace), 0);
    set_vm_slow(&mut pace, true);
    assert_eq!(vm_slow_delay_micros(&pace), 250);
    set_vm_slow(&mut pace, false);
    assert_eq!(vm_slow_delay_micros(&pace), 0);
}

#[test]
fn splitmix_published_numbers() {
    let mut r = SplitMix::new(0);
    assert_eq!(r.next_u64(), 0xE220A8397B1DCDAF);
    assert_eq!(r.next_u64(), 0x6E789E6AA1B965F4);
    let mut bytes = [0u8; 12];
    SplitMix::new(0).fill(&mut bytes);
    assert_eq!(&bytes[..8], &0xE220A8397B1DCDAFu64.to_le_bytes());
    assert_eq!(&bytes[8..], &0x6E789E6AA1B965F4u64.to_le_bytes()[..4]);
    assert_eq!(SplitMix::new(0).next_u8(), 0xAF);
    assert_eq!(SplitMix::new(0).choice(10), 0xE220A8397B1DCDAF % 10);
}

#[test]
fn generated_programs_rebuild_the_key() {
    let mut k1 = [0u8; 32];
    let mut k2 = [0u8; 32];
    let mut km = [0u8; 64];
    for seed in 0..40u64 {
        let mut r = SplitMix::new(seed);
        r.fill(&mut k1);
        r.fill(&mut k2);
        r.fill(&mut km);
        let prog = gen_vm_program(&k1, &k2, &km, seed ^ 0xDEAD);
        let mut out = [0u8; 64];
        assert!(run(&prog, &km, &mut out));
        assert_eq!(&out[..32], &k1);
        assert_eq!(&out[32..], &k2);
        assert!(prog.len() <= 1031);
    }
}
