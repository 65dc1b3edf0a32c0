//! The system call filter: a classic BPF program that kills the process on
//! calls that only an intruder would make.
use vstd::prelude::*;

verus! {

/// The machine that the call numbers are for.
pub const AUDIT_ARCH_X86_64: u32 = 0xC000_003E;

pub const SECCOMP_RET_KILL_PROCESS: u32 = 0x8000_0000;
pub const SECCOMP_RET_ALLOW: u32 = 0x7FFF_0000;

/// BPF: load a word of the call record.
pub const LOAD_WORD: u16 = 0x20;

/// BPF: jump if the loaded word equals a constant.
pub const JUMP_EQUAL: u16 = 0x15;

/// BPF: give a constant as the verdict.
pub const RETURN: u16 = 0x06;

/// Where the call number stands in the call record.
pub const NR_OFFSET: u32 = 0;

/// Where the machine stands in the call record.
pub const ARCH_OFFSET: u32 = 4;

/// Number of forbidden calls.
pub const BLACKLIST_LEN: usize = 22;

/// The forbidden calls: ptrace, execve, execveat, process_vm_readv,
/// process_vm_writev, bpf, keyctl, add_key, request_key, userfaultfd,
/// perf_event_open, kcmp, open_by_handle_at, name_to_handle_at, memfd_create,
/// mount, umount2, reboot, init_module, delete_module, kexec_load and
/// finit_module.
pub const BLACKLIST: [u32; BLACKLIST_LEN] = [
    101,
    59,
    322,
    310,
    311,
    321,
    250,
    248,
    249,
    323,
    298,
    312,
    304,
    303,
    319,
    165,
    166,
    169,
    175,
    176,
    246,
    313,
];

/// One instruction of a classic BPF program.
#[derive(Clone, Copy, PartialEq, Eq, Structural, Debug)]
pub struct Filter {
    pub code: u16,
    pub jt: u8,
    pub jf: u8,
    pub k: u32,
}

/// The word of a call record at an offset, for the two words that a filter
/// reads.
pub open spec fn record_word(arch: u32, nr: u32, offset: u32) -> Option<u32> {
    if offset == ARCH_OFFSET {
        Some(arch)
    } else if offset == NR_OFFSET {
        Some(nr)
    } else {
        None
    }
}

/// The verdict of a filter program on a call, from position `pc` with `acc`
/// loaded; `None` where the program runs off its end or does anything but load
/// one of the two words, compare and return.
pub open spec fn verdict_from(prog: Seq<Filter>, pc: int, acc: u32, arch: u32, nr: u32) -> Option<
    u32,
>
    decreases (if pc < prog.len() { prog.len() - pc } else { 0 }),
{
    if pc < 0 || pc >= prog.len() {
        None
    } else {
        let f = prog[pc];
        if f.code == LOAD_WORD {
            match record_word(arch, nr, f.k) {
                Some(word) => verdict_from(prog, pc + 1, word, arch, nr),
                None => None,
            }
        } else if f.code == JUMP_EQUAL {
            verdict_from(prog, pc + 1 + (if acc == f.k { f.jt } else { f.jf }), acc, arch, nr)
        } else if f.code == RETURN {
            Some(f.k)
        } else {
            None
        }
    }
}

/// The verdict of a filter program on a call.
pub open spec fn verdict(prog: Seq<Filter>, arch: u32, nr: u32) -> Option<u32> {
    verdict_from(prog, 0, 0, arch, nr)
}

/// Whether a call is forbidden.
pub open spec fn forbidden(nr: u32) -> bool {
    exists|i: int| 0 <= i < BLACKLIST_LEN && #[trigger] BLACKLIST@[i] == nr
}

pub open spec fn stmt(code: u16, k: u32) -> Filter {
    Filter { code, jt: 0, jf: 0, k }
}

/// The instructions in front of the list: everything from another machine is
/// killed, then the call number is loaded.
pub open spec fn preamble() -> Seq<Filter> {
    seq![
        stmt(LOAD_WORD, ARCH_OFFSET),
        Filter { code: JUMP_EQUAL, jt: 1, jf: 0, k: AUDIT_ARCH_X86_64 },
        stmt(RETURN, SECCOMP_RET_KILL_PROCESS),
        stmt(LOAD_WORD, NR_OFFSET),
    ]
}

/// The tests for the first `n` forbidden calls.
pub open spec fn tests(n: nat) -> Seq<Filter> {
    Seq::new(
        2 * n,
        |i: int|
            if i % 2 == 0 {
                Filter { code: JUMP_EQUAL, jt: 0, jf: 1, k: BLACKLIST@[i / 2] }
            } else {
                stmt(RETURN, SECCOMP_RET_KILL_PROCESS)
            },
    )
}

/// The filter program.
pub open spec fn filter_program() -> Seq<Filter> {
    preamble() + tests(BLACKLIST_LEN as nat) + seq![stmt(RETURN, SECCOMP_RET_ALLOW)]
}

/// From the test number `i` on, a call is killed exactly if it is one of the
/// forbidden calls that are still to be tested.
proof fn lemma_tests(i: int, arch: u32, nr: u32)
    requires
        0 <= i <= BLACKLIST_LEN,
    ensures
        verdict_from(filter_program(), 4 + 2 * i, nr, arch, nr) == Some(
            if exists|j: int| i <= j < BLACKLIST_LEN && #[trigger] BLACKLIST@[j] == nr {
                SECCOMP_RET_KILL_PROCESS
            } else {
                SECCOMP_RET_ALLOW
            },
        ),
    decreases BLACKLIST_LEN - i,
{
    let prog = filter_program();
    let pc = 4 + 2 * i;
    let t = tests(BLACKLIST_LEN as nat);
    if i < BLACKLIST_LEN {
        lemma_tests(i + 1, arch, nr);
        assert(prog[pc] == t[2 * i]);
        assert(prog[pc + 1] == t[2 * i + 1]);
        assert((2 * i) / 2 == i && (2 * i) % 2 == 0 && (2 * i + 1) % 2 == 1);
        if nr == BLACKLIST@[i] {
            assert(verdict_from(prog, pc + 1, nr, arch, nr) == Some(SECCOMP_RET_KILL_PROCESS));
        }
    } else {
        assert(prog[pc] == stmt(RETURN, SECCOMP_RET_ALLOW));
    }
}

/// The filter kills a process on every call from another machine and on every
/// forbidden call, and allows every other call.
pub proof fn law_filter_verdict(arch: u32, nr: u32)
    ensures
        verdict(filter_program(), arch, nr) == Some(
            if arch != AUDIT_ARCH_X86_64 || forbidden(nr) {
                SECCOMP_RET_KILL_PROCESS
            } else {
                SECCOMP_RET_ALLOW
            },
        ),
{
    let prog = filter_program();
    assert(prog[0] == preamble()[0]);
    assert(prog[1] == preamble()[1]);
    assert(prog[2] == preamble()[2]);
    assert(prog[3] == preamble()[3]);
    lemma_tests(0, arch, nr);
    assert(verdict_from(prog, 0, 0, arch, nr) == verdict_from(prog, 1, arch, arch, nr));
    if arch == AUDIT_ARCH_X86_64 {
        assert(verdict_from(prog, 1, arch, arch, nr) == verdict_from(prog, 3, arch, arch, nr));
        assert(verdict_from(prog, 3, arch, arch, nr) == verdict_from(prog, 4, nr, arch, nr));
    } else {
        assert(verdict_from(prog, 1, arch, arch, nr) == verdict_from(prog, 2, arch, arch, nr));
    }
}

/// Builds the filter program.
pub fn build_filter() -> (prog: Vec<Filter>)
    ensures
        prog@ == filter_program(),
{
    let mut prog: Vec<Filter> = Vec::new();
    prog.push(Filter { code: LOAD_WORD, jt: 0, jf: 0, k: ARCH_OFFSET });
    prog.push(Filter { code: JUMP_EQUAL, jt: 1, jf: 0, k: AUDIT_ARCH_X86_64 });
    prog.push(Filter { code: RETURN, jt: 0, jf: 0, k: SECCOMP_RET_KILL_PROCESS });
    prog.push(Filter { code: LOAD_WORD, jt: 0, jf: 0, k: NR_OFFSET });
    let mut i: usize = 0;
    proof {
        assert(prog@ =~= preamble() + tests(0));
    }
    while i < BLACKLIST_LEN
        invariant
            i <= BLACKLIST_LEN,
            prog@ == preamble() + tests(i as nat),
        decreases BLACKLIST_LEN - i,
    {
        let ghost before = prog@;
        prog.push(Filter { code: JUMP_EQUAL, jt: 0, jf: 1, k: BLACKLIST[i] });
        prog.push(Filter { code: RETURN, jt: 0, jf: 0, k: SECCOMP_RET_KILL_PROCESS });
        i = i + 1;
        proof {
            assert(prog@ =~= preamble() + tests(i as nat));
        }
    }
    prog.push(Filter { code: RETURN, jt: 0, jf: 0, k: SECCOMP_RET_ALLOW });
    proof {
        assert(prog@ =~= filter_program());
    }
    prog
}

/// Number of forbidden calls.
pub fn rule_count() -> (n: usize)
    ensures
        n == BLACKLIST@.len(),
        n == 22,
{
    BLACKLIST.len()
}

/// The calls that are forbidden, by their numbers: ptrace 101, execve 59,
/// execveat 322, process_vm_readv 310, process_vm_writev 311, bpf 321,
/// keyctl 250, add_key 248, request_key 249, userfaultfd 323,
/// perf_event_open 298, kcmp 312, open_by_handle_at 304, name_to_handle_at 303,
/// memfd_create 319, mount 165, umount2 166, reboot 169, init_module 175,
/// delete_module 176, kexec_load 246 and finit_module 313. No other call is.
pub proof fn law_forbidden_calls(nr: u32)
    ensures
        forbidden(nr) <==> nr == 101
            || nr == 59
            || nr == 322
            || nr == 310
            || nr == 311
            || nr == 321
            || nr == 250
            || nr == 248
            || nr == 249
            || nr == 323
            || nr == 298
            || nr == 312
            || nr == 304
            || nr == 303
            || nr == 319
            || nr == 165
            || nr == 166
            || nr == 169
            || nr == 175
            || nr == 176
            || nr == 246
            || nr == 313,
{
    assert(BLACKLIST@[0] == 101);
    assert(BLACKLIST@[1] == 59);
    assert(BLACKLIST@[2] == 322);
    assert(BLACKLIST@[3] == 310);
    assert(BLACKLIST@[4] == 311);
    assert(BLACKLIST@[5] == 321);
    assert(BLACKLIST@[6] == 250);
    assert(BLACKLIST@[7] == 248);
    assert(BLACKLIST@[8] == 249);
    assert(BLACKLIST@[9] == 323);
    assert(BLACKLIST@[10] == 298);
    assert(BLACKLIST@[11] == 312);
    assert(BLACKLIST@[12] == 304);
    assert(BLACKLIST@[13] == 303);
    assert(BLACKLIST@[14] == 319);
    assert(BLACKLIST@[15] == 165);
    assert(BLACKLIST@[16] == 166);
    assert(BLACKLIST@[17] == 169);
    assert(BLACKLIST@[18] == 175);
    assert(BLACKLIST@[19] == 176);
    assert(BLACKLIST@[20] == 246);
    assert(BLACKLIST@[21] == 313);
}

/// The filter kills, in numbers: with the verdict 0x80000000 everything from
/// another machine than 0xC000003E, and 0x7FFF0000 is the verdict that allows.
pub proof fn law_filter_in_numbers(arch: u32, nr: u32)
    ensures
        arch != 0xC000_003E ==> verdict(filter_program(), arch, nr) == Some(0x8000_0000u32),
        arch == 0xC000_003E ==> verdict(filter_program(), arch, nr) == Some(
            if forbidden(nr) {
                0x8000_0000u32
            } else {
                0x7FFF_0000u32
            },
        ),
{
    law_filter_verdict(arch, nr);
}

} // verus!
