//! The system-call filter of the sandbox.
//!
//! The filter is a program for the kernel's classic packet-filter machine. It kills the process
//! on a foreign architecture, on the x32 calling convention, on system calls that are newer than
//! the reviewed table, and on the reviewed table's dangerous calls, and allows the rest.

use vstd::prelude::*;

use crate::process::{HostPlatform, ProcessAdapterError};

verus! {

pub const AUDIT_ARCH_X86_64: u32 = 0xc000_003e;

pub const X32_SYSCALL_BIT: u32 = 0x4000_0000;

pub const MAX_REVIEWED_SYSCALL: u32 = 470;

pub const BPF_LD_W_ABS: u16 = 0x20;

pub const BPF_JMP_JEQ_K: u16 = 0x15;

pub const BPF_JMP_JGE_K: u16 = 0x35;

pub const BPF_JMP_JGT_K: u16 = 0x25;

pub const BPF_RET_K: u16 = 0x06;

pub const SECCOMP_DATA_NR_OFFSET: u32 = 0;

pub const SECCOMP_DATA_ARCH_OFFSET: u32 = 4;

pub const SECCOMP_RET_KILL_PROCESS: u32 = 0x8000_0000;

pub const SECCOMP_RET_ALLOW: u32 = 0x7fff_0000;

/// The reviewed system calls of Linux on x86_64 that are blocked, by number: `ptrace`,
/// `syslog`, `personality`, `vhangup`, `pivot_root`, `acct`, `settimeofday`, `mount`,
/// `umount2`, `swapon`, `swapoff`, `reboot`, `iopl`, `ioperm`, `init_module`,
/// `delete_module`, `quotactl`, `lookup_dcookie`, `clock_settime`, `kexec_load`, `add_key`,
/// `request_key`, `keyctl`, `unshare`, `perf_event_open`, `fanotify_init`,
/// `name_to_handle_at`, `open_by_handle_at`, `clock_adjtime`, `setns`, `process_vm_readv`,
/// `process_vm_writev`, `kcmp`, `finit_module`, `kexec_file_load`, `bpf`, `userfaultfd`,
/// `io_uring_setup`, `io_uring_enter`, `io_uring_register`, `open_tree`, `move_mount`,
/// `fsopen`, `fsconfig`, `fsmount`, `fspick`, `pidfd_getfd`, `process_madvise`,
/// `mount_setattr`, `quotactl_fd`, `memfd_secret`, `process_mrelease`, `statmount`,
/// `listmount`, `lsm_set_self_attr`, `lsm_list_modules`, `open_tree_attr`, `file_getattr`,
/// `file_setattr`, `listns`.
pub const BLOCKED_SYSCALLS: [u32; 60] = [
    101, 103, 135, 153, 155, 163, 164, 165, 166, 167, 168, 169, 172, 173, 175, 176, 179, 212, 227,
    246, 248, 249, 250, 272, 298, 300, 303, 304, 305, 308, 310, 311, 312, 313, 320, 321, 323, 425,
    426, 427, 428, 429, 430, 431, 432, 433, 438, 440, 442, 443, 447, 448, 457, 458, 460, 461, 467,
    468, 469, 470,
];

/// The filter is written for one platform.
pub fn ensure_supported_target(platform: HostPlatform) -> (r: Result<(), ProcessAdapterError>)
    ensures
        r is Ok <==> platform is LinuxX86_64,
        r is Err ==> r->Err_0 == ProcessAdapterError::UnsupportedPlatform,
{
    match platform {
        HostPlatform::LinuxX86_64 => Ok(()),
        _ => Err(ProcessAdapterError::UnsupportedPlatform),
    }
}

// ------------------------------------------------------------------- machine

/// One instruction of the filter machine.
#[derive(Clone, Copy, Debug, PartialEq, Eq, Structural)]
pub struct FilterInstruction {
    pub code: u16,
    pub jump_true: u8,
    pub jump_false: u8,
    pub value: u32,
}

/// An instruction that does not jump.
pub open spec fn statement_of(code: u16, value: u32) -> FilterInstruction {
    FilterInstruction { code, jump_true: 0, jump_false: 0, value }
}

/// An instruction that jumps.
pub open spec fn jump_of(code: u16, value: u32, jump_true: u8, jump_false: u8) -> FilterInstruction {
    FilterInstruction { code, jump_true, jump_false, value }
}

/// What the machine returns from instruction `at` on, with `held` in its accumulator, for a
/// system call `number` on `architecture`; `None` where the program is left without a return or
/// holds what the machine does not know.
pub open spec fn evaluated(
    program: Seq<FilterInstruction>,
    at: int,
    held: u32,
    architecture: u32,
    number: u32,
) -> Option<u32>
    decreases
            (if at < program.len() {
                program.len() - at
            } else {
                0
            }),
{
    if at < 0 || at >= program.len() {
        None
    } else {
        let instruction = program[at];
        if instruction.code == BPF_LD_W_ABS {
            if instruction.value == SECCOMP_DATA_NR_OFFSET {
                evaluated(program, at + 1, number, architecture, number)
            } else if instruction.value == SECCOMP_DATA_ARCH_OFFSET {
                evaluated(program, at + 1, architecture, architecture, number)
            } else {
                None
            }
        } else if instruction.code == BPF_RET_K {
            Some(instruction.value)
        } else if instruction.code == BPF_JMP_JEQ_K || instruction.code == BPF_JMP_JGE_K
            || instruction.code == BPF_JMP_JGT_K {
            let taken = if instruction.code == BPF_JMP_JEQ_K {
                held == instruction.value
            } else if instruction.code == BPF_JMP_JGE_K {
                held >= instruction.value
            } else {
                held > instruction.value
            };
            let skip = if taken {
                instruction.jump_true as int
            } else {
                instruction.jump_false as int
            };
            evaluated(program, at + 1 + skip, held, architecture, number)
        } else {
            None
        }
    }
}

// -------------------------------------------------------------------- policy

/// What the policy says of a system call.
pub open spec fn verdict(architecture: u32, number: u32) -> u32 {
    if architecture != AUDIT_ARCH_X86_64 || number >= X32_SYSCALL_BIT || number
        > MAX_REVIEWED_SYSCALL || BLOCKED_SYSCALLS@.contains(number) {
        SECCOMP_RET_KILL_PROCESS
    } else {
        SECCOMP_RET_ALLOW
    }
}

/// The checks before the table.
pub open spec fn filter_head() -> Seq<FilterInstruction> {
    seq![
        statement_of(BPF_LD_W_ABS, SECCOMP_DATA_ARCH_OFFSET),
        jump_of(BPF_JMP_JEQ_K, AUDIT_ARCH_X86_64, 1, 0),
        statement_of(BPF_RET_K, SECCOMP_RET_KILL_PROCESS),
        statement_of(BPF_LD_W_ABS, SECCOMP_DATA_NR_OFFSET),
        jump_of(BPF_JMP_JGE_K, X32_SYSCALL_BIT, 0, 1),
        statement_of(BPF_RET_K, SECCOMP_RET_KILL_PROCESS),
        jump_of(BPF_JMP_JGT_K, MAX_REVIEWED_SYSCALL, 0, 1),
        statement_of(BPF_RET_K, SECCOMP_RET_KILL_PROCESS),
    ]
}

/// The checks of the first `n` calls of a table.
pub open spec fn filter_table(table: Seq<u32>, n: nat) -> Seq<FilterInstruction>
    decreases n,
{
    if n == 0 {
        Seq::<FilterInstruction>::empty()
    } else {
        filter_table(table, (n - 1) as nat).push(jump_of(BPF_JMP_JEQ_K, table[n - 1], 0, 1)).push(
            statement_of(BPF_RET_K, SECCOMP_RET_KILL_PROCESS),
        )
    }
}

/// The filter.
pub open spec fn default_program() -> Seq<FilterInstruction> {
    (filter_head() + filter_table(BLOCKED_SYSCALLS@, BLOCKED_SYSCALLS@.len())).push(
        statement_of(BPF_RET_K, SECCOMP_RET_ALLOW),
    )
}

proof fn lemma_table(table: Seq<u32>, n: nat)
    requires
        n <= table.len(),
    ensures
        filter_table(table, n).len() == 2 * n,
        forall|k: int|
            0 <= k < n ==> #[trigger] filter_table(table, n)[2 * k] == jump_of(
                BPF_JMP_JEQ_K,
                table[k],
                0,
                1,
            ),
        forall|k: int|
            0 <= k < n ==> #[trigger] filter_table(table, n)[2 * k + 1] == statement_of(
                BPF_RET_K,
                SECCOMP_RET_KILL_PROCESS,
            ),
    decreases n,
{
    if n > 0 {
        let shorter = filter_table(table, (n - 1) as nat);
        lemma_table(table, (n - 1) as nat);
        let all = filter_table(table, n);
        assert forall|k: int| 0 <= k < n implies #[trigger] all[2 * k] == jump_of(
            BPF_JMP_JEQ_K,
            table[k],
            0,
            1,
        ) by {
            if k < n - 1 {
                assert(all[2 * k] == shorter[2 * k]);
            }
        }
        assert forall|k: int| 0 <= k < n implies #[trigger] all[2 * k + 1] == statement_of(
            BPF_RET_K,
            SECCOMP_RET_KILL_PROCESS,
        ) by {
            if k < n - 1 {
                assert(all[2 * k + 1] == shorter[2 * k + 1]);
            }
        }
    }
}

proof fn lemma_program()
    ensures
        default_program().len() == 9 + 2 * BLOCKED_SYSCALLS@.len(),
        forall|k: int| 0 <= k < 8 ==> #[trigger] default_program()[k] == filter_head()[k],
        forall|k: int|
            0 <= k < BLOCKED_SYSCALLS@.len() ==> #[trigger] default_program()[8 + 2 * k] == jump_of(
                BPF_JMP_JEQ_K,
                BLOCKED_SYSCALLS@[k],
                0,
                1,
            ),
        forall|k: int|
            0 <= k < BLOCKED_SYSCALLS@.len() ==> #[trigger] default_program()[9 + 2 * k]
                == statement_of(BPF_RET_K, SECCOMP_RET_KILL_PROCESS),
        default_program()[8 + 2 * (BLOCKED_SYSCALLS@.len() as int)] == statement_of(
            BPF_RET_K,
            SECCOMP_RET_ALLOW,
        ),
{
    let table = BLOCKED_SYSCALLS@;
    lemma_table(table, table.len());
    let checks = filter_table(table, table.len());
    let all = default_program();
    assert forall|k: int| 0 <= k < table.len() implies #[trigger] all[8 + 2 * k] == jump_of(
        BPF_JMP_JEQ_K,
        table[k],
        0,
        1,
    ) by {
        assert(all[8 + 2 * k] == checks[2 * k]);
    }
    assert forall|k: int| 0 <= k < table.len() implies #[trigger] all[9 + 2 * k] == statement_of(
        BPF_RET_K,
        SECCOMP_RET_KILL_PROCESS,
    ) by {
        assert(all[9 + 2 * k] == checks[2 * k + 1]);
    }
}

/// From check `k` of the table on, the calls from `k` on are killed and others allowed.
proof fn lemma_table_verdict(k: int, architecture: u32, number: u32)
    requires
        0 <= k <= BLOCKED_SYSCALLS@.len(),
        forall|j: int| 0 <= j < k ==> #[trigger] BLOCKED_SYSCALLS@[j] != number,
    ensures
        evaluated(default_program(), 8 + 2 * k, number, architecture, number) == Some(
            if BLOCKED_SYSCALLS@.contains(number) {
                SECCOMP_RET_KILL_PROCESS
            } else {
                SECCOMP_RET_ALLOW
            },
        ),
    decreases BLOCKED_SYSCALLS@.len() - k,
{
    lemma_program();
    let program = default_program();
    let at = 8 + 2 * k;
    if k < BLOCKED_SYSCALLS@.len() {
        assert(program[at] == jump_of(BPF_JMP_JEQ_K, BLOCKED_SYSCALLS@[k], 0, 1));
        assert(program[9 + 2 * k] == statement_of(BPF_RET_K, SECCOMP_RET_KILL_PROCESS));
        if BLOCKED_SYSCALLS@[k] == number {
            assert(evaluated(program, at + 1, number, architecture, number) == Some(
                SECCOMP_RET_KILL_PROCESS,
            ));
        } else {
            lemma_table_verdict(k + 1, architecture, number);
            assert(at + 2 == 8 + 2 * (k + 1));
        }
    }
}

/// The filter enforces the policy: for every architecture and every system call number it
/// returns the verdict, and never runs off its end.
pub proof fn law_filter_enforces_the_policy(architecture: u32, number: u32)
    ensures
        evaluated(default_program(), 0, 0, architecture, number) == Some(
            verdict(architecture, number),
        ),
{
    lemma_program();
    let program = default_program();
    assert(program[0] == filter_head()[0]);
    assert(program[1] == filter_head()[1]);
    assert(program[2] == filter_head()[2]);
    assert(program[3] == filter_head()[3]);
    assert(program[4] == filter_head()[4]);
    assert(program[5] == filter_head()[5]);
    assert(program[6] == filter_head()[6]);
    assert(program[7] == filter_head()[7]);
    lemma_table_verdict(0, architecture, number);
    reveal_with_fuel(evaluated, 9);
}

/// The table is sorted, without duplicates, and within what was reviewed.
pub proof fn law_table_is_sorted(i: int, j: int)
    requires
        0 <= i < j < BLOCKED_SYSCALLS@.len(),
    ensures
        BLOCKED_SYSCALLS@[i] < BLOCKED_SYSCALLS@[j] <= MAX_REVIEWED_SYSCALL,
    decreases j - i,
{
    if i + 1 < j {
        law_table_is_sorted(i, j - 1);
        law_table_is_sorted(j - 1, j);
    }
}

// ------------------------------------------------------------------ encoding

/// The eight bytes of an instruction, least significant byte first.
pub open spec fn instruction_bytes(instruction: FilterInstruction) -> Seq<u8> {
    let v = instruction.value as int;
    seq![
        (instruction.code as int % 256) as u8,
        (instruction.code as int / 256) as u8,
        instruction.jump_true,
        instruction.jump_false,
        (v % 256) as u8,
        (v / 256 % 256) as u8,
        (v / 65536 % 256) as u8,
        (v / 16777216) as u8,
    ]
}

/// The bytes of a program.
pub open spec fn program_bytes(program: Seq<FilterInstruction>) -> Seq<u8>
    decreases program.len(),
{
    if program.len() == 0 {
        Seq::<u8>::empty()
    } else {
        program_bytes(program.drop_last()) + instruction_bytes(program.last())
    }
}

/// The instruction that eight bytes hold.
pub open spec fn decoded(bytes: Seq<u8>, i: int) -> FilterInstruction {
    let o = 8 * i;
    FilterInstruction {
        code: (bytes[o] + 256 * bytes[o + 1]) as u16,
        jump_true: bytes[o + 2],
        jump_false: bytes[o + 3],
        value: (bytes[o + 4] + 256 * bytes[o + 5] + 65536 * bytes[o + 6] + 16777216 * bytes[o
            + 7]) as u32,
    }
}

/// The bytes of a program hold the program.
pub proof fn law_bytes_hold_the_program(program: Seq<FilterInstruction>)
    ensures
        program_bytes(program).len() == 8 * program.len(),
        forall|i: int|
            0 <= i < program.len() ==> #[trigger] decoded(program_bytes(program), i) == program[i],
    decreases program.len(),
{
    if program.len() > 0 {
        let shorter = program.drop_last();
        law_bytes_hold_the_program(shorter);
        let before = program_bytes(shorter);
        let last = instruction_bytes(program.last());
        let all = program_bytes(program);
        assert forall|i: int| 0 <= i < program.len() implies #[trigger] decoded(all, i)
            == program[i] by {
            if i < shorter.len() {
                assert(decoded(before, i) == shorter[i]);
                assert(all[8 * i] == before[8 * i]);
                assert(all[8 * i + 1] == before[8 * i + 1]);
                assert(all[8 * i + 2] == before[8 * i + 2]);
                assert(all[8 * i + 3] == before[8 * i + 3]);
                assert(all[8 * i + 4] == before[8 * i + 4]);
                assert(all[8 * i + 5] == before[8 * i + 5]);
                assert(all[8 * i + 6] == before[8 * i + 6]);
                assert(all[8 * i + 7] == before[8 * i + 7]);
            } else {
                assert(all[8 * i] == last[0]);
                assert(all[8 * i + 1] == last[1]);
                assert(all[8 * i + 2] == last[2]);
                assert(all[8 * i + 3] == last[3]);
                assert(all[8 * i + 4] == last[4]);
                assert(all[8 * i + 5] == last[5]);
                assert(all[8 * i + 6] == last[6]);
                assert(all[8 * i + 7] == last[7]);
            }
        }
    }
}

impl FilterInstruction {
    fn statement(code: u16, value: u32) -> (r: FilterInstruction)
        ensures
            r == statement_of(code, value),
    {
        FilterInstruction { code, jump_true: 0, jump_false: 0, value }
    }

    fn jump(code: u16, value: u32, jump_true: u8, jump_false: u8) -> (r: FilterInstruction)
        ensures
            r == jump_of(code, value, jump_true, jump_false),
    {
        FilterInstruction { code, jump_true, jump_false, value }
    }

    fn append_bytes(self, output: &mut Vec<u8>)
        ensures
            final(output)@ == old(output)@ + instruction_bytes(self),
    {
        output.push((self.code % 256) as u8);
        output.push((self.code / 256) as u8);
        output.push(self.jump_true);
        output.push(self.jump_false);
        output.push((self.value % 256) as u8);
        output.push((self.value / 256 % 256) as u8);
        output.push((self.value / 65536 % 256) as u8);
        output.push((self.value / 16777216) as u8);
        assert(output@ =~= old(output)@ + instruction_bytes(self));
    }
}

/// The filter.
#[must_use]
pub fn default_filter() -> (r: Vec<FilterInstruction>)
    ensures
        r@ == default_program(),
{
    let mut program: Vec<FilterInstruction> = Vec::new();
    program.push(FilterInstruction::statement(BPF_LD_W_ABS, SECCOMP_DATA_ARCH_OFFSET));
    program.push(FilterInstruction::jump(BPF_JMP_JEQ_K, AUDIT_ARCH_X86_64, 1, 0));
    program.push(FilterInstruction::statement(BPF_RET_K, SECCOMP_RET_KILL_PROCESS));
    program.push(FilterInstruction::statement(BPF_LD_W_ABS, SECCOMP_DATA_NR_OFFSET));
    program.push(FilterInstruction::jump(BPF_JMP_JGE_K, X32_SYSCALL_BIT, 0, 1));
    program.push(FilterInstruction::statement(BPF_RET_K, SECCOMP_RET_KILL_PROCESS));
    program.push(FilterInstruction::jump(BPF_JMP_JGT_K, MAX_REVIEWED_SYSCALL, 0, 1));
    program.push(FilterInstruction::statement(BPF_RET_K, SECCOMP_RET_KILL_PROCESS));
    assert(program@ =~= filter_head() + filter_table(BLOCKED_SYSCALLS@, 0));
    let mut i: usize = 0;
    while i < BLOCKED_SYSCALLS.len()
        invariant
            i <= BLOCKED_SYSCALLS@.len(),
            program@ == filter_head() + filter_table(BLOCKED_SYSCALLS@, i as nat),
        decreases BLOCKED_SYSCALLS@.len() - i,
    {
        program.push(FilterInstruction::jump(BPF_JMP_JEQ_K, BLOCKED_SYSCALLS[i], 0, 1));
        program.push(FilterInstruction::statement(BPF_RET_K, SECCOMP_RET_KILL_PROCESS));
        assert(program@ =~= filter_head() + filter_table(BLOCKED_SYSCALLS@, (i + 1) as nat));
        i = i + 1;
    }
    program.push(FilterInstruction::statement(BPF_RET_K, SECCOMP_RET_ALLOW));
    program
}

/// The bytes of the filter, as the kernel takes them.
#[must_use]
pub fn default_filter_bytes() -> (r: Vec<u8>)
    ensures
        r@ == program_bytes(default_program()),
{
    let program = default_filter();
    let mut bytes: Vec<u8> = Vec::new();
    let mut i: usize = 0;
    assert(bytes@ =~= program_bytes(program@.take(0)));
    while i < program.len()
        invariant
            i <= program@.len(),
            bytes@ == program_bytes(program@.take(i as int)),
        decreases program@.len() - i,
    {
        let ghost next = program@.take(i + 1);
        assert(next.drop_last() =~= program@.take(i as int));
        program[i].append_bytes(&mut bytes);
        i = i + 1;
    }
    assert(program@.take(i as int) =~= program@);
    bytes
}

} // verus!
