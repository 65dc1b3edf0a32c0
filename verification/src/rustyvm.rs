//! The key machine: a small stack machine whose program rebuilds the key
//! bytes from stored key material.
//!
//! A program is a byte string. Each instruction is an opcode, in some cases
//! followed by operand bytes. The interpreter avoids branches on secret
//! values: selections and table accesses go through masks.
use vstd::prelude::*;

use crate::bytes;

verus! {

pub const OP_HALT: u8 = 0x00;
pub const OP_PUSH1: u8 = 0x01;
pub const OP_PUSH8: u8 = 0x02;
pub const OP_PUSHKEY: u8 = 0x03;
pub const OP_DUP: u8 = 0x04;
pub const OP_SWAP: u8 = 0x05;
pub const OP_DROP: u8 = 0x06;
pub const OP_XOR: u8 = 0x07;
pub const OP_ADD: u8 = 0x08;
pub const OP_SUB: u8 = 0x09;
pub const OP_AND: u8 = 0x0A;
pub const OP_OR: u8 = 0x0B;
pub const OP_NOT: u8 = 0x0C;
pub const OP_ROTL: u8 = 0x0D;
pub const OP_ROTR: u8 = 0x0E;
pub const OP_WRMEM: u8 = 0x11;
pub const OP_CF_OBFUSCATE_BASE: u8 = 0xA0;
pub const OP_CF_OBFUSCATE_END: u8 = 0xA5;
pub const OP_OPAQUE_PRED_BASE: u8 = 0xE0;
pub const OP_OPAQUE_PRED_END: u8 = 0xE3;
pub const OP_OPAQUE_LABEL: u8 = 0xF0;

/// Number of cells of the stack.
pub const STACK_CELLS: usize = 16;

/// Extra delay per instruction when the machine runs slowed down.
pub const SLOW_STEP_MICROS: u64 = 250;

/// A machine between two instructions: the live stack cells, the position in
/// the program, whether everything so far was valid, the output bytes, and
/// whether an instruction touched a stack cell that does not exist.
#[verifier::ext_equal]
pub struct VmState {
    pub stack: Seq<u64>,
    pub ip: int,
    pub ok: bool,
    pub out: Seq<u8>,
    pub fault: bool,
}

pub open spec fn is_cf(op: u8) -> bool {
    OP_CF_OBFUSCATE_BASE <= op <= OP_CF_OBFUSCATE_END
}

pub open spec fn is_pred(op: u8) -> bool {
    OP_OPAQUE_PRED_BASE <= op <= OP_OPAQUE_PRED_END
}

/// The opcodes that pop two cells and push one.
pub open spec fn is_binary(op: u8) -> bool {
    op == OP_XOR || op == OP_ADD || op == OP_SUB || op == OP_AND || op == OP_OR
}

pub open spec fn is_push(op: u8) -> bool {
    op == OP_PUSH1 || op == OP_PUSH8 || op == OP_PUSHKEY
}

pub open spec fn is_rotate(op: u8) -> bool {
    op == OP_ROTL || op == OP_ROTR
}

/// Opcodes of the machine; every other byte is an unknown instruction.
pub open spec fn is_known(op: u8) -> bool {
    is_push(op) || is_binary(op) || is_rotate(op) || is_cf(op) || is_pred(op) || op == OP_HALT || op
        == OP_DUP || op == OP_SWAP || op == OP_DROP || op == OP_NOT || op == OP_WRMEM || op
        == OP_OPAQUE_LABEL
}

/// Number of operand bytes behind an opcode.
pub open spec fn operand_len(op: u8) -> int {
    if op == OP_PUSH8 {
        8
    } else if op == OP_OPAQUE_LABEL || is_cf(op) {
        2
    } else if op == OP_PUSH1 || op == OP_PUSHKEY || is_rotate(op) || op == OP_WRMEM || is_pred(op) {
        1
    } else {
        0
    }
}

/// Whether an instruction reads or writes a stack cell that does not exist
/// when `depth` cells are live.
pub open spec fn touches_missing_cell(op: u8, depth: int) -> bool {
    if is_push(op) {
        depth >= STACK_CELLS
    } else if op == OP_DUP {
        depth == 0 || depth >= STACK_CELLS
    } else if op == OP_SWAP || is_binary(op) {
        depth < 2
    } else if op == OP_NOT || is_rotate(op) {
        depth < 1
    } else {
        false
    }
}

pub open spec fn rotl64(x: u64, n: u32) -> u64 {
    if n == 0 {
        x
    } else {
        (x << n) | (x >> ((64 - n) as u32))
    }
}

pub open spec fn rotr64(x: u64, n: u32) -> u64 {
    if n == 0 {
        x
    } else {
        (x >> n) | (x << ((64 - n) as u32))
    }
}

/// What a two-operand instruction makes of the top cell `a` and of the cell
/// `b` below it.
pub open spec fn binary_result(op: u8, a: u64, b: u64) -> u64 {
    if op == OP_XOR {
        a ^ b
    } else if op == OP_ADD {
        a.wrapping_add(b)
    } else if op == OP_SUB {
        b.wrapping_sub(a)
    } else if op == OP_AND {
        a & b
    } else {
        a | b
    }
}

/// The value that a push instruction pushes, or `None` where its operands are
/// cut off or name no byte of the key material.
pub open spec fn pushed_value(prog: Seq<u8>, material: Seq<u8>, op: u8, at: int) -> Option<u64> {
    if at + operand_len(op) > prog.len() {
        None
    } else if op == OP_PUSH1 {
        Some(prog[at] as u64)
    } else if op == OP_PUSH8 {
        Some(bytes::le_value(prog.subrange(at, at + 8)) as u64)
    } else if prog[at] < material.len() {
        Some(material[prog[at] as int] as u64)
    } else {
        None
    }
}

/// Whether the machine has come to rest before the instruction at `s.ip`.
pub open spec fn is_done(prog: Seq<u8>, s: VmState) -> bool {
    s.fault || !(0 <= s.ip < prog.len()) || prog[s.ip] == OP_HALT
}

/// What one instruction does to the stack and the output, and whether it was
/// valid. `at` is the position of its operands.
pub open spec fn effect(prog: Seq<u8>, material: Seq<u8>, op: u8, at: int, s: VmState) -> (
    Seq<u64>,
    Seq<u8>,
    bool,
) {
    let n = s.stack.len() as int;
    let complete = at + operand_len(op) <= prog.len();
    if is_push(op) {
        match pushed_value(prog, material, op, at) {
            Some(v) => (s.stack.push(v), s.out, true),
            None => (s.stack, s.out, false),
        }
    } else if op == OP_DUP {
        (s.stack.push(s.stack[n - 1]), s.out, true)
    } else if op == OP_SWAP {
        (s.stack.update(n - 1, s.stack[n - 2]).update(n - 2, s.stack[n - 1]), s.out, true)
    } else if op == OP_DROP {
        (if n > 0 { s.stack.drop_last() } else { s.stack }, s.out, n > 0)
    } else if is_binary(op) {
        (
            s.stack.subrange(0, n - 2).push(binary_result(op, s.stack[n - 1], s.stack[n - 2])),
            s.out,
            true,
        )
    } else if op == OP_NOT {
        (s.stack.update(n - 1, !s.stack[n - 1]), s.out, true)
    } else if is_rotate(op) {
        if complete {
            let by = (prog[at] as u32) & 63;
            let x = s.stack[n - 1];
            (s.stack.update(n - 1, if op == OP_ROTL { rotl64(x, by) } else { rotr64(x, by) }), s.out, true)
        } else {
            (s.stack, s.out, false)
        }
    } else if op == OP_WRMEM {
        let written = complete && n > 0 && prog[at] < s.out.len();
        (
            if n > 0 { s.stack.drop_last() } else { s.stack },
            if written { s.out.update(prog[at] as int, s.stack[n - 1] as u8) } else { s.out },
            written,
        )
    } else {
        (s.stack, s.out, complete && is_known(op))
    }
}

/// The machine after the instruction at `s.ip`. A machine that is at rest
/// stays as it is; an instruction that touches a missing stack cell changes
/// nothing but the fault mark.
pub open spec fn step(prog: Seq<u8>, material: Seq<u8>, s: VmState) -> VmState {
    if is_done(prog, s) {
        s
    } else {
        let op = prog[s.ip];
        let at = s.ip + 1;
        if touches_missing_cell(op, s.stack.len() as int) {
            VmState { fault: true, ..s }
        } else {
            let (stack, out, valid) = effect(prog, material, op, at, s);
            let end = at + operand_len(op);
            VmState {
                stack,
                ip: if end <= prog.len() { end } else { prog.len() as int },
                ok: s.ok && valid && stack.len() < STACK_CELLS,
                out,
                fault: false,
            }
        }
    }
}

/// The machine at rest that a machine in state `s` comes to.
pub open spec fn run_from(prog: Seq<u8>, material: Seq<u8>, s: VmState) -> VmState
    decreases prog.len() - s.ip, (if s.fault { 0int } else { 1int }),
{
    if is_done(prog, s) {
        s
    } else {
        run_from(prog, material, step(prog, material, s))
    }
}

/// A machine about to start on an output buffer that holds `out`.
pub open spec fn start_state(out: Seq<u8>) -> VmState {
    VmState { stack: Seq::empty(), ip: 0, ok: true, out, fault: false }
}

/// The machine at rest after a whole program.
pub open spec fn run_result(prog: Seq<u8>, material: Seq<u8>, out: Seq<u8>) -> VmState {
    run_from(prog, material, start_state(out))
}

/// Whether the machine is to run slowed down. Slowing down is a nuisance to
/// whoever watches the machine under an emulator; it never changes a result.
pub struct VmPace {
    pub slow: bool,
}

/// Switches the slow pace on or off.
pub fn set_vm_slow(pace: &mut VmPace, on: bool)
    ensures
        final(pace).slow == on,
{
    pace.slow = on;
}

/// The delay that belongs behind each instruction, in microseconds.
pub fn vm_slow_delay_micros(pace: &VmPace) -> (micros: u64)
    ensures
        micros == if pace.slow { SLOW_STEP_MICROS } else { 0 },
        micros == if pace.slow { 250u64 } else { 0 },
{
    if pace.slow {
        SLOW_STEP_MICROS
    } else {
        0
    }
}

proof fn lemma_mask(a: u64, b: u64)
    by (bit_vector)
    ensures
        (a & 0xffff_ffff_ffff_ffffu64) | (b & !0xffff_ffff_ffff_ffffu64) == a,
        (a & 0u64) | (b & !0u64) == b,
        a & 0u64 == 0u64,
        a & 0xffff_ffff_ffff_ffffu64 == a,
{
}

/// All ones where `cond` holds, else zero.
fn ct_mask(cond: bool) -> (mask: u64)
    ensures
        mask == if cond { 0xffff_ffff_ffff_ffffu64 } else { 0 },
{
    0u64.wrapping_sub(cond as u64)
}

/// Branch-free choice between two words.
fn ct_select(cond: bool, a: u64, b: u64) -> (r: u64)
    ensures
        r == if cond { a } else { b },
{
    let mask: u64 = ct_mask(cond);
    proof {
        lemma_mask(a, b);
    }
    (a & mask) | (b & !mask)
}

/// Branch-free choice between two sizes.
fn ct_select_usize(cond: bool, a: usize, b: usize) -> (r: usize)
    ensures
        r == if cond { a } else { b },
{
    ct_select(cond, a as u64, b as u64) as usize
}

/// Reads `material[idx]` by passing over all of it; zero where there is no
/// such byte.
fn ct_load(material: &[u8], idx: usize) -> (r: u64)
    ensures
        r == if idx < material@.len() { material@[idx as int] as u64 } else { 0 },
{
    let mut result: u64 = 0;
    let mut i: usize = 0;
    while i < material.len()
        invariant
            i <= material@.len(),
            result == if idx < i { material@[idx as int] as u64 } else { 0 },
        decreases material@.len() - i,
    {
        let mask: u64 = ct_mask(i == idx);
        let byte: u64 = material[i] as u64;
        proof {
            lemma_mask(byte, 0);
            lemma_xor_zero(byte);
            lemma_xor_zero(result);
        }
        result = result ^ (byte & mask);
        i = i + 1;
    }
    result
}

proof fn lemma_xor_zero(a: u64)
    by (bit_vector)
    ensures
        0u64 ^ a == a,
        a ^ 0u64 == a,
{
}

proof fn lemma_masked_byte(old_byte: u8, val: u8)
    by (bit_vector)
    ensures
        old_byte ^ ((val ^ old_byte) & 0xffu8) == val,
        old_byte ^ ((val ^ old_byte) & 0u8) == old_byte,
        0xffff_ffff_ffff_ffffu64 as u8 == 0xffu8,
        0u64 as u8 == 0u8,
{
}

/// Writes `out[idx] = val` where `enable` holds, by passing over all of `out`.
fn ct_store(out: &mut [u8], idx: usize, val: u8, enable: bool)
    ensures
        final(out)@ == if enable && idx < old(out)@.len() {
            old(out)@.update(idx as int, val)
        } else {
            old(out)@
        },
{
    let ghost before = out@;
    let mut i: usize = 0;
    while i < out.len()
        invariant
            i <= out@.len(),
            out@.len() == before.len(),
            forall|j: int|
                0 <= j < before.len() ==> out@[j] == if j < i && enable && j == idx {
                    val
                } else {
                    before[j]
                },
        decreases out@.len() - i,
    {
        let mask: u64 = ct_mask(enable) & ct_mask(i == idx);
        let b: u8 = out[i];
        proof {
            lemma_mask(ct_mask_value(enable), 0);
            lemma_masked_byte(b, val);
        }
        let m: u8 = mask as u8;
        out[i] = b ^ ((val ^ b) & m);
        i = i + 1;
    }
    proof {
        assert(out@ =~= if enable && idx < before.len() {
            before.update(idx as int, val)
        } else {
            before
        });
    }
}

spec fn ct_mask_value(cond: bool) -> u64 {
    if cond {
        0xffff_ffff_ffff_ffff
    } else {
        0
    }
}

/// What a step came to.
#[derive(Clone, Copy, PartialEq, Eq, Structural, Debug)]
pub enum StepOutcome {
    /// The instruction was carried out; more may follow.
    Ran,
    /// The machine is at rest: the program has ended or halted.
    Done,
    /// The instruction touches a stack cell that does not exist.
    Fault,
}

/// The interpreter: stack, stack pointer, instruction pointer, validity.
pub struct Vm {
    stack: [u64; STACK_CELLS],
    sp: usize,
    ip: usize,
    ok: bool,
    fault: bool,
}

impl Vm {
    /// The interpreter as a machine state, together with its output buffer.
    pub closed spec fn state(&self, out: Seq<u8>) -> VmState {
        VmState {
            stack: self.stack@.subrange(0, self.sp as int),
            ip: self.ip as int,
            ok: self.ok,
            out,
            fault: self.fault,
        }
    }

    /// No more cells are live than there are.
    pub closed spec fn wf(&self) -> bool {
        self.sp <= STACK_CELLS
    }

    /// An interpreter at the start of a program.
    pub fn new() -> (vm: Vm)
        ensures
            vm.wf(),
            forall|out: Seq<u8>| #[trigger] vm.state(out) == start_state(out),
    {
        let vm = Vm { stack: [0; STACK_CELLS], sp: 0, ip: 0, ok: true, fault: false };
        proof {
            assert(vm.stack@.subrange(0, 0) =~= Seq::<u64>::empty());
        }
        vm
    }

    /// Whether everything so far was valid.
    pub fn ok(&self) -> (r: bool)
        ensures
            forall|out: Seq<u8>| r == (#[trigger] self.state(out)).ok,
    {
        self.ok
    }

    /// Writes the next free cell and makes it live where `valid` holds.
    fn push(&mut self, valid: bool, val: u64)
        requires
            old(self).sp < STACK_CELLS,
        ensures
            final(self).ip == old(self).ip,
            final(self).ok == (old(self).ok && valid),
            final(self).fault == old(self).fault,
            final(self).sp == old(self).sp + (if valid { 1int } else { 0 }),
            final(self).stack@.subrange(0, final(self).sp as int) == (if valid {
                old(self).stack@.subrange(0, old(self).sp as int).push(val)
            } else {
                old(self).stack@.subrange(0, old(self).sp as int)
            }),
    {
        let ghost before = self.stack@;
        let sp: usize = self.sp;
        self.stack[sp] = ct_select(valid, val, self.stack[sp]);
        self.sp = ct_select_usize(valid, sp + 1, sp);
        self.ok = self.ok && valid;
        proof {
            assert(self.stack@.subrange(0, self.sp as int) =~= if valid {
                before.subrange(0, sp as int).push(val)
            } else {
                before.subrange(0, sp as int)
            });
        }
    }

    /// Replaces the two top cells by `val`.
    fn merge_top(&mut self, val: u64)
        requires
            2 <= old(self).sp <= STACK_CELLS,
        ensures
            final(self).ip == old(self).ip,
            final(self).ok == old(self).ok,
            final(self).fault == old(self).fault,
            final(self).sp == old(self).sp - 1,
            final(self).stack@.subrange(0, final(self).sp as int) == old(self).stack@.subrange(
                0,
                old(self).sp - 2,
            ).push(val),
    {
        let ghost before = self.stack@;
        let sp: usize = self.sp - 1;
        self.sp = sp;
        self.stack[sp - 1] = val;
        proof {
            assert(self.stack@.subrange(0, sp as int) =~= before.subrange(0, sp - 1).push(val));
        }
    }

    /// Replaces the top cell by `val`.
    fn replace_top(&mut self, val: u64)
        requires
            1 <= old(self).sp <= STACK_CELLS,
        ensures
            final(self).ip == old(self).ip,
            final(self).ok == old(self).ok,
            final(self).fault == old(self).fault,
            final(self).sp == old(self).sp,
            final(self).stack@.subrange(0, final(self).sp as int) == old(self).stack@.subrange(
                0,
                old(self).sp as int,
            ).update(old(self).sp - 1, val),
    {
        let ghost before = self.stack@;
        let sp: usize = self.sp;
        self.stack[sp - 1] = val;
        proof {
            assert(self.stack@.subrange(0, sp as int) =~= before.subrange(0, sp as int).update(
                sp - 1,
                val,
            ));
        }
    }

    /// Gives up the top cell, if there is one.
    fn pop(&mut self)
        requires
            old(self).sp <= STACK_CELLS,
        ensures
            final(self).ip == old(self).ip,
            final(self).ok == old(self).ok,
            final(self).fault == old(self).fault,
            final(self).sp <= old(self).sp,
            final(self).stack@.subrange(0, final(self).sp as int) == (if old(self).sp > 0 {
                old(self).stack@.subrange(0, old(self).sp as int).drop_last()
            } else {
                old(self).stack@.subrange(0, old(self).sp as int)
            }),
    {
        let ghost before = self.stack@;
        let sp: usize = self.sp;
        self.sp = ct_select_usize(sp > 0, sp.wrapping_sub(1), sp);
        proof {
            assert(self.stack@.subrange(0, self.sp as int) =~= if sp > 0 {
                before.subrange(0, sp as int).drop_last()
            } else {
                before.subrange(0, sp as int)
            });
        }
    }

    /// Carries out one instruction.
    #[verifier::rlimit(60)]
    pub fn step(&mut self, prog: &[u8], material: &[u8], out: &mut [u8]) -> (outcome: StepOutcome)
        requires
            old(self).wf(),
        ensures
            final(self).wf(),
            final(self).state(final(out)@) == step(prog@, material@, old(self).state(old(out)@)),
            outcome == (if final(self).state(final(out)@).fault {
                StepOutcome::Fault
            } else if is_done(prog@, old(self).state(old(out)@)) {
                StepOutcome::Done
            } else {
                StepOutcome::Ran
            }),
    {
        let ghost s0 = self.state(out@);
        if self.fault {
            return StepOutcome::Fault;
        }
        if self.ip >= prog.len() {
            return StepOutcome::Done;
        }
        let op: u8 = prog[self.ip];
        if op == OP_HALT {
            return StepOutcome::Done;
        }
        let at: usize = self.ip + 1;
        let sp: usize = self.sp;
        let left: usize = prog.len() - at;
        if missing_cell(op, sp) {
            self.fault = true;
            return StepOutcome::Fault;
        }
        let wanted: usize = operand_count(op);
        let complete: bool = wanted <= left;
        self.ip = if complete { at + wanted } else { prog.len() };
        if op == OP_PUSH1 {
            let val: u64 = if complete { prog[at] as u64 } else { 0 };
            self.push(complete, val);
        } else if op == OP_PUSH8 {
            let val: u64 = if complete { bytes::read_le(prog, at, 8) } else { 0 };
            self.push(complete, val);
        } else if op == OP_PUSHKEY {
            let idx: usize = if complete { prog[at] as usize } else { 0 };
            let valid: bool = complete && idx < material.len();
            let val: u64 = ct_load(material, idx);
            self.push(valid, val);
        } else if op == OP_DUP {
            let val: u64 = self.stack[sp - 1];
            self.push(true, val);
        } else if op == OP_SWAP {
            let a: u64 = self.stack[sp - 1];
            let b: u64 = self.stack[sp - 2];
            self.stack[sp - 1] = b;
            self.stack[sp - 2] = a;
        } else if op == OP_DROP {
            self.pop();
            self.ok = self.ok && (sp > 0);
        } else if op == OP_XOR {
            let res: u64 = self.stack[sp - 1] ^ self.stack[sp - 2];
            self.merge_top(res);
        } else if op == OP_ADD {
            let res: u64 = self.stack[sp - 1].wrapping_add(self.stack[sp - 2]);
            self.merge_top(res);
        } else if op == OP_SUB {
            let res: u64 = self.stack[sp - 2].wrapping_sub(self.stack[sp - 1]);
            self.merge_top(res);
        } else if op == OP_AND {
            let res: u64 = self.stack[sp - 1] & self.stack[sp - 2];
            self.merge_top(res);
        } else if op == OP_OR {
            let res: u64 = self.stack[sp - 1] | self.stack[sp - 2];
            self.merge_top(res);
        } else if op == OP_NOT {
            let res: u64 = !self.stack[sp - 1];
            self.replace_top(res);
        } else if op == OP_ROTL || op == OP_ROTR {
            let n: u32 = if complete { (prog[at] as u32) & 63 } else { 0 };
            proof {
                let b: u32 = prog@[at as int] as u32;
                assert(b & 63 < 64) by (bit_vector);
            }
            let a: u64 = self.stack[sp - 1];
            let turned: u64 = if op == OP_ROTL { rotate_left(a, n) } else { rotate_right(a, n) };
            let res: u64 = ct_select(complete, turned, a);
            self.replace_top(res);
            self.ok = self.ok && complete;
            proof {
                assert(s0.stack.update(sp - 1, a) =~= s0.stack);
            }
        } else if op == OP_WRMEM {
            let idx: usize = if complete { prog[at] as usize } else { 0 };
            let val: u64 = if sp > 0 { self.stack[sp - 1] } else { 0 };
            let valid: bool = complete && sp > 0 && idx < out.len();
            let byte: u8 = val as u8;
            ct_store(out, idx, byte, valid);
            self.pop();
            self.ok = self.ok && valid;
        } else {
            self.ok = self.ok && (complete && known(op));
        }
        self.ok = self.ok && (self.sp < STACK_CELLS);
        proof {
            let s1 = self.state(out@);
            let want = step(prog@, material@, s0);
            assert(s1.stack =~= want.stack);
            assert(s1.out =~= want.out);
            assert(s1 == want);
        }
        StepOutcome::Ran
    }
}

fn known(op: u8) -> (r: bool)
    ensures
        r == is_known(op),
{
    op <= OP_ROTR || op == OP_WRMEM || op == OP_OPAQUE_LABEL || (OP_OPAQUE_PRED_BASE <= op && op
        <= OP_OPAQUE_PRED_END) || (OP_CF_OBFUSCATE_BASE <= op && op <= OP_CF_OBFUSCATE_END)
}

fn operand_count(op: u8) -> (n: usize)
    ensures
        n == operand_len(op),
{
    if op == OP_PUSH8 {
        8
    } else if op == OP_OPAQUE_LABEL || (OP_CF_OBFUSCATE_BASE <= op && op <= OP_CF_OBFUSCATE_END) {
        2
    } else if op == OP_PUSH1 || op == OP_PUSHKEY || op == OP_ROTL || op == OP_ROTR || op == OP_WRMEM
        || (OP_OPAQUE_PRED_BASE <= op && op <= OP_OPAQUE_PRED_END) {
        1
    } else {
        0
    }
}

fn missing_cell(op: u8, sp: usize) -> (r: bool)
    ensures
        r == touches_missing_cell(op, sp as int),
{
    if op == OP_PUSH1 || op == OP_PUSH8 || op == OP_PUSHKEY {
        sp >= STACK_CELLS
    } else if op == OP_DUP {
        sp == 0 || sp >= STACK_CELLS
    } else if op == OP_SWAP || op == OP_XOR || op == OP_ADD || op == OP_SUB || op == OP_AND || op
        == OP_OR {
        sp < 2
    } else if op == OP_NOT || op == OP_ROTL || op == OP_ROTR {
        sp < 1
    } else {
        false
    }
}

fn rotate_left(x: u64, n: u32) -> (r: u64)
    requires
        n < 64,
    ensures
        r == rotl64(x, n),
{
    if n == 0 {
        x
    } else {
        (x << n) | (x >> (64 - n))
    }
}

fn rotate_right(x: u64, n: u32) -> (r: u64)
    requires
        n < 64,
    ensures
        r == rotr64(x, n),
{
    if n == 0 {
        x
    } else {
        (x >> n) | (x << (64 - n))
    }
}

/// Runs a program on the key material. Returns whether the program ended
/// without an invalid instruction, or `None` where it touched a stack cell
/// that does not exist. `out` takes what the program wrote.
pub fn run_checked(prog: &[u8], material: &[u8], out: &mut [u8]) -> (r: Option<bool>)
    ensures
        final(out)@ == run_result(prog@, material@, old(out)@).out,
        r is None <==> run_result(prog@, material@, old(out)@).fault,
        r matches Some(ok) ==> ok == run_result(prog@, material@, old(out)@).ok,
{
    let ghost want = run_result(prog@, material@, out@);
    let mut vm = Vm::new();
    let mut outcome: StepOutcome = StepOutcome::Ran;
    proof {
        assert(vm.state(out@) == start_state(out@));
    }
    while outcome == StepOutcome::Ran
        invariant
            vm.wf(),
            0 <= vm.state(out@).ip,
            want == run_from(prog@, material@, vm.state(out@)),
            outcome != StepOutcome::Ran ==> is_done(prog@, vm.state(out@)),
            outcome == StepOutcome::Fault <==> vm.state(out@).fault,
        decreases
            (if outcome == StepOutcome::Ran { 1int } else { 0 }),
            prog@.len() - vm.state(out@).ip,
    {
        let ghost before = vm.state(out@);
        outcome = vm.step(prog, material, out);
    }
    if outcome == StepOutcome::Fault {
        None
    } else {
        Some(vm.ok())
    }
}

/// Runs a program that touches only stack cells that exist.
pub fn run(prog: &[u8], material: &[u8], out: &mut [u8]) -> (ok: bool)
    requires
        !run_result(prog@, material@, old(out)@).fault,
    ensures
        ok == run_result(prog@, material@, old(out)@).ok,
        final(out)@ == run_result(prog@, material@, old(out)@).out,
{
    match run_checked(prog, material, out) {
        Some(ok) => ok,
        None => false,
    }
}

/// What the instructions of two operands do with the top of the stack `a` and
/// the cell `b` below it, by their codes.
pub proof fn law_two_operands(a: u64, b: u64)
    ensures
        binary_result(0x07, a, b) == a ^ b,
        binary_result(0x08, a, b) == (a + b) % 0x1_0000_0000_0000_0000,
        binary_result(0x09, a, b) == (b - a) % 0x1_0000_0000_0000_0000,
        binary_result(0x0A, a, b) == a & b,
        binary_result(0x0B, a, b) == a | b,
{
}

/// What each instruction does, by its code, on a stack of two or more cells that
/// is not full, with all its operands there: `a` is the top cell and `b` the one
/// below it.
pub proof fn law_instructions(prog: Seq<u8>, material: Seq<u8>, s: VmState)
    requires
        0 <= s.ip,
        s.ip + 9 <= prog.len(),
        !s.fault,
        2 <= s.stack.len() < 15,
    ensures
        ({
            let op = prog[s.ip];
            let x = prog[s.ip + 1];
            let n = s.stack.len() as int;
            let a = s.stack[n - 1];
            let b = s.stack[n - 2];
            let rest = s.stack.subrange(0, n - 2);
            let t = step(prog, material, s);
            &&& op == 0x00 ==> t == s
            &&& op != 0x00 ==> !t.fault
            &&& op == 0x01 ==> t.stack == s.stack.push(x as u64) && t.ip == s.ip + 2
            &&& op == 0x02 ==> t.stack == s.stack.push(
                bytes::le_value(prog.subrange(s.ip + 1, s.ip + 9)) as u64,
            ) && t.ip == s.ip + 9
            &&& op == 0x03 && x < material.len() ==> t.stack == s.stack.push(
                material[x as int] as u64,
            ) && t.ip == s.ip + 2
            &&& op == 0x03 && x >= material.len() ==> !t.ok
            &&& op == 0x04 ==> t.stack == s.stack.push(a) && t.ip == s.ip + 1
            &&& op == 0x05 ==> t.stack == rest.push(a).push(b) && t.ip == s.ip + 1
            &&& op == 0x06 ==> t.stack == rest.push(b) && t.ip == s.ip + 1
            &&& op == 0x07 ==> t.stack == rest.push(a ^ b) && t.ip == s.ip + 1
            &&& op == 0x08 ==> t.stack == rest.push(
                ((a + b) % 0x1_0000_0000_0000_0000) as u64,
            ) && t.ip == s.ip + 1
            &&& op == 0x09 ==> t.stack == rest.push(
                ((b - a) % 0x1_0000_0000_0000_0000) as u64,
            ) && t.ip == s.ip + 1
            &&& op == 0x0A ==> t.stack == rest.push(a & b) && t.ip == s.ip + 1
            &&& op == 0x0B ==> t.stack == rest.push(a | b) && t.ip == s.ip + 1
            &&& op == 0x0C ==> t.stack == rest.push(b).push(!a) && t.ip == s.ip + 1
            &&& op == 0x0D ==> t.stack == rest.push(b).push(rotl64(a, (x as u32) & 63)) && t.ip
                == s.ip + 2
            &&& op == 0x0E ==> t.stack == rest.push(b).push(rotr64(a, (x as u32) & 63)) && t.ip
                == s.ip + 2
            &&& op == 0x11 && x < s.out.len() ==> t.out == s.out.update(x as int, a as u8)
                && t.stack == rest.push(b) && t.ip == s.ip + 2
            &&& op == 0x11 && x >= s.out.len() ==> !t.ok && t.out == s.out
            &&& (0xA0 <= op <= 0xA5 || op == 0xF0) ==> t.stack == s.stack && t.ip == s.ip + 3
            &&& 0xE0 <= op <= 0xE3 ==> t.stack == s.stack && t.ip == s.ip + 2
            &&& op != 0x11 ==> t.out == s.out
            &&& (op == 0x0F || op == 0x10 || 0x12 <= op <= 0x9F || 0xA6 <= op <= 0xDF || 0xE4 <= op
                <= 0xEF || 0xF1 <= op) ==> !t.ok
            &&& !s.ok && op != 0x00 ==> !t.ok
            &&& s.ok && (op == 0x01 || op == 0x02 || 0x04 <= op <= 0x0E || 0xA0 <= op <= 0xA5 || 0xE0
                <= op <= 0xE3 || op == 0xF0) && n < 15 ==> t.ok
        }),
{
    let op = prog[s.ip];
    let n = s.stack.len() as int;
    let t = step(prog, material, s);
    let a = s.stack[n - 1];
    let b = s.stack[n - 2];
    let rest = s.stack.subrange(0, n - 2);
    if op == 0x04 {
        assert(t.stack =~= s.stack.push(a));
    } else if op == 0x05 {
        assert(t.stack =~= rest.push(a).push(b));
    } else if op == 0x06 || op == 0x11 {
        assert(t.stack =~= rest.push(b));
    } else if op == 0x0C {
        assert(t.stack =~= rest.push(b).push(!a));
    } else if op == 0x0D {
        assert(t.stack =~= rest.push(b).push(rotl64(a, (prog[s.ip + 1] as u32) & 63)));
    } else if op == 0x0E {
        assert(t.stack =~= rest.push(b).push(rotr64(a, (prog[s.ip + 1] as u32) & 63)));
    }
}

/// A stack that has too few cells for an instruction, or none left, is a fault:
/// nothing is done but that.
pub proof fn law_missing_cells(prog: Seq<u8>, material: Seq<u8>, s: VmState)
    requires
        0 <= s.ip < prog.len(),
        !s.fault,
        s.stack.len() <= 16,
    ensures
        ({
            let op = prog[s.ip];
            let n = s.stack.len();
            let t = step(prog, material, s);
            t.fault <==> {
                ||| n >= 16 && 0x01 <= op <= 0x04
                ||| n == 0 && (op == 0x04 || op == 0x0C || op == 0x0D || op == 0x0E)
                ||| n < 2 && (op == 0x05 || 0x07 <= op <= 0x0B)
            }
        }),
        step(prog, material, s).fault ==> step(prog, material, s).out == s.out,
{
}

/// A machine runs on until it rests: at a halt, at the end of the program, or
/// after a fault.
pub proof fn law_running(prog: Seq<u8>, material: Seq<u8>, s: VmState)
    ensures
        is_done(prog, s) <==> s.fault || s.ip < 0 || s.ip >= prog.len() || prog[s.ip] == 0x00,
        is_done(prog, s) ==> run_from(prog, material, s) == s,
        !is_done(prog, s) ==> run_from(prog, material, s) == run_from(
            prog,
            material,
            step(prog, material, s),
        ),
        start_state(material) == (VmState {
            stack: Seq::empty(),
            ip: 0,
            ok: true,
            out: material,
            fault: false,
        }),
{
}

/// An instruction whose operands are cut off by the end of the program is not
/// valid, and ends it.
pub proof fn law_cut_off_operands(prog: Seq<u8>, material: Seq<u8>, s: VmState)
    requires
        0 <= s.ip,
        s.ip == prog.len() - 1,
        !s.fault,
        1 <= s.stack.len() < 16,
    ensures
        ({
            let op = prog[s.ip];
            let t = step(prog, material, s);
            (0x01 <= op <= 0x03 || op == 0x0D || op == 0x0E || op == 0x11 || 0xA0 <= op <= 0xA5
                || 0xE0 <= op <= 0xE3 || op == 0xF0) ==> !t.ok && t.ip == prog.len() && t.out
                == s.out
        }),
{
}

} // verus!
