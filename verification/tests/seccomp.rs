//! The syscall filter.

use aios::process::seccomp::{
    AUDIT_ARCH_X86_64, BLOCKED_SYSCALLS, BPF_JMP_JEQ_K, BPF_JMP_JGE_K, BPF_JMP_JGT_K,
    BPF_LD_W_ABS, BPF_RET_K, MAX_REVIEWED_SYSCALL, SECCOMP_DATA_ARCH_OFFSET,
    SECCOMP_DATA_NR_OFFSET, SECCOMP_RET_ALLOW, SECCOMP_RET_KILL_PROCESS, X32_SYSCALL_BIT,
    default_filter, default_filter_bytes, ensure_supported_target,
};
use aios::process::{HostPlatform, ProcessAdapterError};

fn instruction(bytes: &[u8], index: usize) -> (u16, u8, u8, u32) {
    let offset = index * 8;
    (
        u16::from_ne_bytes([bytes[offset], bytes[offset + 1]]),
        bytes[offset + 2],
        bytes[offset + 3],
        u32::from_ne_bytes([
            bytes[offset + 4],
            bytes[offset + 5],
            bytes[offset + 6],
            bytes[offset + 7],
        ]),
    )
}

fn evaluate(bytes: &[u8], architecture: u32, syscall: u32) -> u32 {
    let mut accumulator = 0_u32;
    let mut program_counter = 0_usize;
    loop {
        let (code, jump_true, jump_false, value) = instruction(bytes, program_counter);
        match code {
            BPF_LD_W_ABS => {
                accumulator = match value {
                    SECCOMP_DATA_NR_OFFSET => syscall,
                    SECCOMP_DATA_ARCH_OFFSET => architecture,
                    _ => panic!("unexpected seccomp data offset"),
                };
                program_counter += 1;
            }
            BPF_JMP_JEQ_K => {
                let jump = if accumulator == value {
                    jump_true
                } else {
                    jump_false
                };
                program_counter += usize::from(jump) + 1;
            }
            BPF_JMP_JGE_K => {
                let jump = if accumulator >= value {
                    jump_true
                } else {
                    jump_false
                };
                program_counter += usize::from(jump) + 1;
            }
            BPF_JMP_JGT_K => {
                let jump = if accumulator > value {
                    jump_true
                } else {
                    jump_false
                };
                program_counter += usize::from(jump) + 1;
            }
            BPF_RET_K => return value,
            _ => panic!("unexpected BPF instruction"),
        }
    }
}

#[test]
fn policy_validates_architecture_and_rejects_x32_before_syscalls() {
    let bytes = default_filter_bytes();
    assert_eq!(bytes.len() % 8, 0);
    assert_eq!(
        instruction(&bytes, 0),
        (BPF_LD_W_ABS, 0, 0, SECCOMP_DATA_ARCH_OFFSET)
    );
    assert_eq!(
        instruction(&bytes, 1),
        (BPF_JMP_JEQ_K, 1, 0, AUDIT_ARCH_X86_64)
    );
    assert_eq!(
        instruction(&bytes, 2),
        (BPF_RET_K, 0, 0, SECCOMP_RET_KILL_PROCESS)
    );
    assert_eq!(
        instruction(&bytes, 3),
        (BPF_LD_W_ABS, 0, 0, SECCOMP_DATA_NR_OFFSET)
    );
    assert_eq!(
        instruction(&bytes, 4),
        (BPF_JMP_JGE_K, 0, 1, X32_SYSCALL_BIT)
    );
    assert_eq!(
        instruction(&bytes, 5),
        (BPF_RET_K, 0, 0, SECCOMP_RET_KILL_PROCESS)
    );
    assert_eq!(
        instruction(&bytes, 6),
        (BPF_JMP_JGT_K, 0, 1, MAX_REVIEWED_SYSCALL)
    );
    assert_eq!(
        instruction(&bytes, 7),
        (BPF_RET_K, 0, 0, SECCOMP_RET_KILL_PROCESS)
    );
}

#[test]
fn policy_blocks_a_sorted_unique_reviewed_syscall_set_then_allows() {
    for pair in BLOCKED_SYSCALLS.windows(2) {
        assert!(pair[0] < pair[1], "syscall list must be sorted");
    }

    let bytes = default_filter_bytes();
    for (index, syscall) in BLOCKED_SYSCALLS.iter().enumerate() {
        assert_eq!(
            instruction(&bytes, 8 + index * 2),
            (BPF_JMP_JEQ_K, 0, 1, *syscall)
        );
        assert_eq!(
            instruction(&bytes, 9 + index * 2),
            (BPF_RET_K, 0, 0, SECCOMP_RET_KILL_PROCESS)
        );
    }
    assert_eq!(
        instruction(&bytes, 8 + BLOCKED_SYSCALLS.len() * 2),
        (BPF_RET_K, 0, 0, SECCOMP_RET_ALLOW)
    );

    assert_eq!(
        evaluate(&bytes, 0, 39),
        SECCOMP_RET_KILL_PROCESS,
        "unknown architecture must fail closed"
    );
    assert_eq!(
        evaluate(&bytes, AUDIT_ARCH_X86_64, X32_SYSCALL_BIT),
        SECCOMP_RET_KILL_PROCESS,
        "x32 ABI must not bypass the deny table"
    );
    assert_eq!(
        evaluate(&bytes, AUDIT_ARCH_X86_64, MAX_REVIEWED_SYSCALL + 1),
        SECCOMP_RET_KILL_PROCESS,
        "future syscall numbers require an explicit policy review"
    );
    assert_eq!(
        evaluate(&bytes, AUDIT_ARCH_X86_64, 135),
        SECCOMP_RET_KILL_PROCESS,
        "personality is part of the reviewed deny table"
    );
    assert_eq!(
        evaluate(&bytes, AUDIT_ARCH_X86_64, 39),
        SECCOMP_RET_ALLOW,
        "ordinary x86_64 getpid remains allowed"
    );
}

#[test]
fn only_the_reviewed_target_is_supported() {
    assert_eq!(ensure_supported_target(HostPlatform::LinuxX86_64), Ok(()));
    for platform in [HostPlatform::Linux, HostPlatform::Other] {
        assert_eq!(
            ensure_supported_target(platform),
            Err(ProcessAdapterError::UnsupportedPlatform)
        );
    }
}

#[test]
fn bytes_hold_the_instructions_in_order() {
    let program = default_filter();
    let bytes = default_filter_bytes();
    assert_eq!(bytes.len(), program.len() * 8);
    for (index, expected) in program.iter().enumerate() {
        assert_eq!(
            instruction(&bytes, index),
            (
                expected.code,
                expected.jump_true,
                expected.jump_false,
                expected.value
            )
        );
    }
}

#[test]
fn every_syscall_number_is_decided_by_the_table() {
    let bytes = default_filter_bytes();
    for syscall in 0..=MAX_REVIEWED_SYSCALL {
        let expected = if BLOCKED_SYSCALLS.contains(&syscall) {
            SECCOMP_RET_KILL_PROCESS
        } else {
            SECCOMP_RET_ALLOW
        };
        assert_eq!(evaluate(&bytes, AUDIT_ARCH_X86_64, syscall), expected);
    }
}
