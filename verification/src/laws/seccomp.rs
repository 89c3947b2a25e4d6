//! Laws on the system call filter.

use vstd::prelude::*;

use crate::process::seccomp;
use crate::process::seccomp::FilterInstruction;

verus! {

/// The numbers of the x86-64 system calls that a sandboxed process may not make: among them
/// tracing, mounting, modules, keys, the kernel log, rings and namespaces.
pub open spec fn is_forbidden(number: u32) -> bool {
    ||| number == 101
    ||| number == 103
    ||| number == 135
    ||| number == 153
    ||| number == 155
    ||| 163 <= number <= 169
    ||| 172 <= number <= 173
    ||| 175 <= number <= 176
    ||| number == 179
    ||| number == 212
    ||| number == 227
    ||| number == 246
    ||| 248 <= number <= 250
    ||| number == 272
    ||| number == 298
    ||| number == 300
    ||| 303 <= number <= 305
    ||| number == 308
    ||| 310 <= number <= 313
    ||| 320 <= number <= 321
    ||| number == 323
    ||| 425 <= number <= 433
    ||| number == 438
    ||| number == 440
    ||| 442 <= number <= 443
    ||| 447 <= number <= 448
    ||| 457 <= number <= 458
    ||| 460 <= number <= 461
    ||| 467 <= number <= 470
}

/// On x86-64 a system call is allowed exactly where its number is at most 470 and not a forbidden
/// one; on any other architecture none is. Whatever is not allowed kills the process.
pub proof fn law_forbidden_calls_kill(architecture: u32, number: u32)
    ensures
        seccomp::verdict(architecture, number) == (if architecture == 0xc000_003e && number <= 470
            && !is_forbidden(number) {
            0x7fff_0000u32
        } else {
            0x8000_0000u32
        }),
        seccomp::evaluated(seccomp::default_program(), 0, 0, architecture, number) == Some(
            seccomp::verdict(architecture, number),
        ),
{
    seccomp::law_filter_enforces_the_policy(architecture, number);
    lemma_table(number);
}

proof fn lemma_table(number: u32)
    ensures
        seccomp::BLOCKED_SYSCALLS@.contains(number) <==> is_forbidden(number),
{
    assert(seccomp::BLOCKED_SYSCALLS@[0] == 101);
    assert(seccomp::BLOCKED_SYSCALLS@[1] == 103);
    assert(seccomp::BLOCKED_SYSCALLS@[2] == 135);
    assert(seccomp::BLOCKED_SYSCALLS@[3] == 153);
    assert(seccomp::BLOCKED_SYSCALLS@[4] == 155);
    assert(seccomp::BLOCKED_SYSCALLS@[5] == 163);
    assert(seccomp::BLOCKED_SYSCALLS@[6] == 164);
    assert(seccomp::BLOCKED_SYSCALLS@[7] == 165);
    assert(seccomp::BLOCKED_SYSCALLS@[8] == 166);
    assert(seccomp::BLOCKED_SYSCALLS@[9] == 167);
    assert(seccomp::BLOCKED_SYSCALLS@[10] == 168);
    assert(seccomp::BLOCKED_SYSCALLS@[11] == 169);
    assert(seccomp::BLOCKED_SYSCALLS@[12] == 172);
    assert(seccomp::BLOCKED_SYSCALLS@[13] == 173);
    assert(seccomp::BLOCKED_SYSCALLS@[14] == 175);
    assert(seccomp::BLOCKED_SYSCALLS@[15] == 176);
    assert(seccomp::BLOCKED_SYSCALLS@[16] == 179);
    assert(seccomp::BLOCKED_SYSCALLS@[17] == 212);
    assert(seccomp::BLOCKED_SYSCALLS@[18] == 227);
    assert(seccomp::BLOCKED_SYSCALLS@[19] == 246);
    assert(seccomp::BLOCKED_SYSCALLS@[20] == 248);
    assert(seccomp::BLOCKED_SYSCALLS@[21] == 249);
    assert(seccomp::BLOCKED_SYSCALLS@[22] == 250);
    assert(seccomp::BLOCKED_SYSCALLS@[23] == 272);
    assert(seccomp::BLOCKED_SYSCALLS@[24] == 298);
    assert(seccomp::BLOCKED_SYSCALLS@[25] == 300);
    assert(seccomp::BLOCKED_SYSCALLS@[26] == 303);
    assert(seccomp::BLOCKED_SYSCALLS@[27] == 304);
    assert(seccomp::BLOCKED_SYSCALLS@[28] == 305);
    assert(seccomp::BLOCKED_SYSCALLS@[29] == 308);
    assert(seccomp::BLOCKED_SYSCALLS@[30] == 310);
    assert(seccomp::BLOCKED_SYSCALLS@[31] == 311);
    assert(seccomp::BLOCKED_SYSCALLS@[32] == 312);
    assert(seccomp::BLOCKED_SYSCALLS@[33] == 313);
    assert(seccomp::BLOCKED_SYSCALLS@[34] == 320);
    assert(seccomp::BLOCKED_SYSCALLS@[35] == 321);
    assert(seccomp::BLOCKED_SYSCALLS@[36] == 323);
    assert(seccomp::BLOCKED_SYSCALLS@[37] == 425);
    assert(seccomp::BLOCKED_SYSCALLS@[38] == 426);
    assert(seccomp::BLOCKED_SYSCALLS@[39] == 427);
    assert(seccomp::BLOCKED_SYSCALLS@[40] == 428);
    assert(seccomp::BLOCKED_SYSCALLS@[41] == 429);
    assert(seccomp::BLOCKED_SYSCALLS@[42] == 430);
    assert(seccomp::BLOCKED_SYSCALLS@[43] == 431);
    assert(seccomp::BLOCKED_SYSCALLS@[44] == 432);
    assert(seccomp::BLOCKED_SYSCALLS@[45] == 433);
    assert(seccomp::BLOCKED_SYSCALLS@[46] == 438);
    assert(seccomp::BLOCKED_SYSCALLS@[47] == 440);
    assert(seccomp::BLOCKED_SYSCALLS@[48] == 442);
    assert(seccomp::BLOCKED_SYSCALLS@[49] == 443);
    assert(seccomp::BLOCKED_SYSCALLS@[50] == 447);
    assert(seccomp::BLOCKED_SYSCALLS@[51] == 448);
    assert(seccomp::BLOCKED_SYSCALLS@[52] == 457);
    assert(seccomp::BLOCKED_SYSCALLS@[53] == 458);
    assert(seccomp::BLOCKED_SYSCALLS@[54] == 460);
    assert(seccomp::BLOCKED_SYSCALLS@[55] == 461);
    assert(seccomp::BLOCKED_SYSCALLS@[56] == 467);
    assert(seccomp::BLOCKED_SYSCALLS@[57] == 468);
    assert(seccomp::BLOCKED_SYSCALLS@[58] == 469);
    assert(seccomp::BLOCKED_SYSCALLS@[59] == 470);
    if seccomp::BLOCKED_SYSCALLS@.contains(number) {
        let i = choose|i: int|
            0 <= i < seccomp::BLOCKED_SYSCALLS@.len() && seccomp::BLOCKED_SYSCALLS@[i] == number;
        assert(seccomp::BLOCKED_SYSCALLS@.len() == 60);
        assert(is_forbidden(number));
    }
}

/// The filter as the kernel reads it: load the architecture, compare, load the number, compare
/// with the two bounds, compare with each number of the table, and allow what is left.
pub proof fn law_the_filter_is_a_kernel_program(k: int)
    requires
        0 <= k < seccomp::BLOCKED_SYSCALLS@.len(),
    ensures
        ({
            let program = seccomp::default_program();
            let kill = FilterInstruction {
                code: 0x06,
                jump_true: 0,
                jump_false: 0,
                value: 0x8000_0000,
            };
            &&& program.len() == 129
            &&& program[0] == (FilterInstruction {
                code: 0x20,
                jump_true: 0,
                jump_false: 0,
                value: 4,
            })
            &&& program[1] == (FilterInstruction {
                code: 0x15,
                jump_true: 1,
                jump_false: 0,
                value: 0xc000_003e,
            })
            &&& program[2] == kill
            &&& program[3] == (FilterInstruction {
                code: 0x20,
                jump_true: 0,
                jump_false: 0,
                value: 0,
            })
            &&& program[4] == (FilterInstruction {
                code: 0x35,
                jump_true: 0,
                jump_false: 1,
                value: 0x4000_0000,
            })
            &&& program[5] == kill
            &&& program[6] == (FilterInstruction {
                code: 0x25,
                jump_true: 0,
                jump_false: 1,
                value: 470,
            })
            &&& program[7] == kill
            &&& program[8 + 2 * k] == (FilterInstruction {
                code: 0x15,
                jump_true: 0,
                jump_false: 1,
                value: seccomp::BLOCKED_SYSCALLS@[k],
            })
            &&& program[9 + 2 * k] == kill
            &&& program[128] == (FilterInstruction {
                code: 0x06,
                jump_true: 0,
                jump_false: 0,
                value: 0x7fff_0000,
            })
        }),
{
    lemma_rows(seccomp::BLOCKED_SYSCALLS@, 60, k);
    let head = seccomp::filter_head();
    let table = seccomp::filter_table(seccomp::BLOCKED_SYSCALLS@, 60);
    assert(head.len() == 8);
    let program = seccomp::default_program();
    assert(program[8 + 2 * k] == table[2 * k]);
    assert(program[9 + 2 * k] == table[2 * k + 1]);
}

proof fn lemma_rows(table: Seq<u32>, n: nat, k: int)
    requires
        0 <= k < n,
    ensures
        seccomp::filter_table(table, n).len() == 2 * n,
        seccomp::filter_table(table, n)[2 * k] == (FilterInstruction {
            code: 0x15,
            jump_true: 0,
            jump_false: 1,
            value: table[k],
        }),
        seccomp::filter_table(table, n)[2 * k + 1] == (FilterInstruction {
            code: 0x06,
            jump_true: 0,
            jump_false: 0,
            value: 0x8000_0000,
        }),
    decreases n,
{
    if n > 1 {
        lemma_rows(table, (n - 1) as nat, if k < n - 1 {
            k
        } else {
            0
        });
    } else {
        reveal_with_fuel(seccomp::filter_table, 2);
    }
}

/// An instruction is of eight bytes: the code, least significant byte first, the two jumps, and
/// the value, least significant byte first.
pub proof fn law_instructions_are_of_eight_bytes(instruction: FilterInstruction)
    ensures
        ({
            let b = seccomp::instruction_bytes(instruction);
            &&& b.len() == 8
            &&& b[0] + 256 * b[1] == instruction.code
            &&& b[2] == instruction.jump_true && b[3] == instruction.jump_false
            &&& b[4] + 256 * b[5] + 65_536 * b[6] + 16_777_216 * b[7] == instruction.value
        }),
{
}

} // verus!
