use lib::disasm::{classify, decode_raw_insn, Arch, FlowKind, Insn};

fn flow(arch: Arch, m: &str) -> FlowKind {
    let cs: Vec<char> = m.chars().collect();
    classify(arch, &cs)
}

fn raw(text: &str) -> Vec<u8> {
    let mut buf = vec![0u8; 512];
    buf[..text.len()].copy_from_slice(text.as_bytes());
    buf
}

#[test]
fn x86_flow_table() {
    assert_eq!(flow(Arch::X86_64, "nop"), FlowKind::Normal);
    assert_eq!(flow(Arch::X86_64, "ret"), FlowKind::Return);
    assert_eq!(flow(Arch::X86_64, "syscall"), FlowKind::Syscall);
    assert_eq!(flow(Arch::X86_64, "int3"), FlowKind::Interrupt);
    assert_eq!(flow(Arch::X86_64, "call"), FlowKind::Call);
    assert_eq!(flow(Arch::X86_64, "jmp"), FlowKind::UncondBranch);
    assert_eq!(flow(Arch::X86_64, "je"), FlowKind::CondBranch);
    assert_eq!(flow(Arch::X86_64, "loopnz"), FlowKind::CondBranch);
    assert_eq!(flow(Arch::X86_64, "jmpx"), FlowKind::Normal);
}

#[test]
fn aarch64_flow_table() {
    assert_eq!(flow(Arch::AArch64, "nop"), FlowKind::Normal);
    assert_eq!(flow(Arch::AArch64, "ret"), FlowKind::Return);
    assert_eq!(flow(Arch::AArch64, "bl"), FlowKind::Call);
    assert_eq!(flow(Arch::AArch64, "b"), FlowKind::UncondBranch);
    assert_eq!(flow(Arch::AArch64, "b.ne"), FlowKind::CondBranch);
    assert_eq!(flow(Arch::AArch64, "svc"), FlowKind::Interrupt);
}

#[test]
fn riscv_flow_table() {
    assert_eq!(flow(Arch::Riscv64, "nop"), FlowKind::Normal);
    assert_eq!(flow(Arch::Riscv64, "ecall"), FlowKind::Interrupt);
    assert_eq!(flow(Arch::Riscv64, "j"), FlowKind::UncondBranch);
    assert_eq!(flow(Arch::Riscv64, "jal"), FlowKind::Call);
    assert_eq!(flow(Arch::Riscv64, "ret"), FlowKind::Return);
    assert_eq!(flow(Arch::Riscv64, "jr"), FlowKind::UncondBranch);
    assert_eq!(flow(Arch::Riscv64, "jalr"), FlowKind::Call);
    assert_eq!(flow(Arch::Riscv64, "beqz"), FlowKind::CondBranch);
    assert_eq!(flow(Arch::Riscv64, "bgeu"), FlowKind::CondBranch);
    assert_eq!(flow(Arch::Riscv64, "c.bnez"), FlowKind::CondBranch);
}

#[test]
fn raw_insn_text_mnemonic_and_target() {
    let insn = decode_raw_insn(Arch::X86_64, 0, &raw("CALL\t0x1005"), 5, 1, &[0x1005, 0, 0, 0]);
    assert_eq!(insn.len, 5);
    assert_eq!(insn.text, "CALL 0x1005");
    assert_eq!(insn.mnemonic, "call");
    assert_eq!(insn.targets, vec![0x1005]);
    assert_eq!(insn.flow, FlowKind::Call);
    assert_eq!(insn.branch_target, Some(0x1005));
}

#[test]
fn raw_insn_without_branch_keeps_targets_but_no_branch_target() {
    let insn = decode_raw_insn(Arch::X86_64, 0, &raw("  mov\teax, [0x10]"), 3, 9, &[0x10, 1, 2, 3]);
    assert_eq!(insn.text, "  mov eax, [0x10]");
    assert_eq!(insn.mnemonic, "mov");
    assert_eq!(insn.targets, vec![0x10, 1, 2, 3]);
    assert_eq!(insn.flow, FlowKind::Normal);
    assert_eq!(insn.branch_target, None);
}

#[test]
fn raw_insn_failure_is_invalid() {
    let insn = decode_raw_insn(Arch::Riscv64, 1, &raw("nop"), 4, 0, &[0; 4]);
    assert_eq!(insn.len, 0);
    assert_eq!(insn.text, "");
    assert_eq!(insn.flow, FlowKind::Normal);
    let insn = decode_raw_insn(Arch::Riscv64, 0, &raw("nop"), 0, 0, &[0; 4]);
    assert_eq!(insn.len, 0);
    assert_eq!(insn.mnemonic, "");
    let insn = Insn::invalid();
    assert_eq!(insn.len, 0);
    assert!(insn.targets.is_empty());
}

#[test]
fn raw_insn_text_without_nul_and_negative_target_count() {
    let buf = vec![b'x'; 8];
    let insn = decode_raw_insn(Arch::AArch64, 0, &buf, 4, -3, &[7; 4]);
    assert_eq!(insn.text, "xxxxxxxx");
    assert!(insn.targets.is_empty());
    assert_eq!(insn.branch_target, None);
}

#[test]
fn blank_text_has_empty_mnemonic() {
    let insn = decode_raw_insn(Arch::X86_64, 0, &raw("\t \n"), 1, 0, &[0; 4]);
    assert_eq!(insn.text, "   ");
    assert_eq!(insn.mnemonic, "");
    assert_eq!(insn.flow, FlowKind::Normal);
}
