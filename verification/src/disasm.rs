//! Instructions as the disassembler prints them, and their control-flow
//! classification. Flow kinds classify printed mnemonics only: this is a
//! table per architecture, not a second decoder.
use vstd::prelude::*;
use crate::text::{
    has_prefix, ascii_lower, ascii_lower_spec, chars_of, eq_lit, is_control, is_control_spec, is_whitespace,
    is_whitespace_spec, lossy_utf8, starts_with_lit, string_from_chars, utf8_lossy,
};

verus! {

#[derive(Clone, Copy, PartialEq, Eq, Debug)]
pub enum Arch {
    X86_64,
    AArch64,
    Riscv64,
}

#[derive(Clone, Copy, PartialEq, Eq, Debug)]
pub enum FlowKind {
    Normal,
    Call,
    Return,
    CondBranch,
    UncondBranch,
    Syscall,
    Interrupt,
}

#[derive(Clone, Debug)]
pub struct Insn {
    pub len: usize,
    pub text: String,
    /// First token, ASCII-lowercased.
    pub mnemonic: String,
    pub targets: Vec<u64>,
    pub flow: FlowKind,
    pub branch_target: Option<u64>,
}

// ---------------------------------------------------------------------------
// Mnemonic tables
// ---------------------------------------------------------------------------

/// x86-64 conditional branches and loops, Intel syntax as binutils prints them.
pub open spec fn x86_cond_branch(m: Seq<char>) -> bool {
    m == "je"@ || m == "jne"@ || m == "jz"@ || m == "jnz"@ || m == "ja"@ || m == "jae"@ || m
        == "jb"@ || m == "jbe"@ || m == "jg"@ || m == "jge"@ || m == "jl"@ || m == "jle"@ || m
        == "js"@ || m == "jns"@ || m == "jo"@ || m == "jno"@ || m == "jp"@ || m == "jnp"@ || m
        == "jpe"@ || m == "jpo"@ || m == "jecxz"@ || m == "jrcxz"@ || m == "loop"@ || m
        == "loope"@ || m == "loopne"@ || m == "loopz"@ || m == "loopnz"@
}

pub open spec fn x86_flow(m: Seq<char>) -> FlowKind {
    if m == "call"@ || m == "callq"@ {
        FlowKind::Call
    } else if m == "ret"@ || m == "retq"@ || m == "retn"@ || m == "retf"@ {
        FlowKind::Return
    } else if m == "jmp"@ || m == "jmpq"@ {
        FlowKind::UncondBranch
    } else if x86_cond_branch(m) {
        FlowKind::CondBranch
    } else if m == "syscall"@ || m == "sysenter"@ || m == "sysexit"@ || m == "sysret"@ {
        FlowKind::Syscall
    } else if m == "int"@ || m == "int1"@ || m == "int3"@ || m == "into"@ || m == "ud2"@ || m
        == "iret"@ || m == "iretq"@ {
        FlowKind::Interrupt
    } else {
        FlowKind::Normal
    }
}

pub open spec fn aarch64_flow(m: Seq<char>) -> FlowKind {
    if m == "bl"@ || m == "blr"@ {
        FlowKind::Call
    } else if m == "ret"@ {
        FlowKind::Return
    } else if m == "b"@ || m == "br"@ {
        FlowKind::UncondBranch
    } else if has_prefix(m, "b."@) || m == "cbz"@ || m == "cbnz"@ || m == "tbz"@ || m == "tbnz"@
        || m == "bcz"@ || m == "bcnz"@ {
        FlowKind::CondBranch
    } else if m == "svc"@ || m == "hvc"@ || m == "smc"@ || m == "brk"@ || m == "bkpt"@ || m
        == "dcps1"@ || m == "dcps2"@ || m == "dcps3"@ {
        // svc is the A64 syscall convention.
        FlowKind::Interrupt
    } else {
        FlowKind::Normal
    }
}

pub open spec fn riscv_cond_branch(m: Seq<char>) -> bool {
    has_prefix(m, "beq"@) || has_prefix(m, "bne"@) || has_prefix(m, "blt"@) || has_prefix(
        m,
        "bge"@,
    ) || has_prefix(m, "bgeu"@) || has_prefix(m, "bltu"@) || m == "beqz"@ || m == "bnez"@ || m
        == "blez"@ || m == "bgez"@ || m == "bltz"@ || m == "bgtz"@ || has_prefix(m, "c.beqz"@)
        || has_prefix(m, "c.bnez"@) || has_prefix(m, "c.b"@)
}

/// Matches the mnemonics binutils actually prints, including `c.*`
/// compressed forms.
pub open spec fn riscv_flow(m: Seq<char>) -> FlowKind {
    if m == "ret"@ {
        FlowKind::Return
    } else if m == "call"@ {
        FlowKind::Call
    } else if m == "j"@ || m == "jr"@ || m == "c.j"@ || m == "c.jr"@ || m == "tail"@ {
        FlowKind::UncondBranch
    } else if m == "jal"@ || m == "jalr"@ || m == "c.jal"@ || m == "c.jalr"@ {
        // non-ret forms (ret handled above)
        FlowKind::Call
    } else if riscv_cond_branch(m) {
        FlowKind::CondBranch
    } else if m == "ecall"@ || m == "ebreak"@ || m == "c.ecall"@ || m == "c.ebreak"@ || m
        == "sret"@ || m == "mret"@ {
        FlowKind::Interrupt
    } else {
        FlowKind::Normal
    }
}

/// The flow kind of a printed mnemonic on an architecture.
pub open spec fn flow_spec(arch: Arch, m: Seq<char>) -> FlowKind {
    match arch {
        Arch::X86_64 => x86_flow(m),
        Arch::AArch64 => aarch64_flow(m),
        Arch::Riscv64 => riscv_flow(m),
    }
}

/// The x86-64 table: calls, returns, jumps, every conditional jump and
/// loop, system calls and interrupts are classified by their kind, and
/// ordinary instructions are not flow changes.
pub proof fn law_x86_flow_table()
    ensures
        flow_spec(Arch::X86_64, "call"@) == FlowKind::Call,
        flow_spec(Arch::X86_64, "callq"@) == FlowKind::Call,
        flow_spec(Arch::X86_64, "ret"@) == FlowKind::Return,
        flow_spec(Arch::X86_64, "retq"@) == FlowKind::Return,
        flow_spec(Arch::X86_64, "retn"@) == FlowKind::Return,
        flow_spec(Arch::X86_64, "retf"@) == FlowKind::Return,
        flow_spec(Arch::X86_64, "jmp"@) == FlowKind::UncondBranch,
        flow_spec(Arch::X86_64, "jmpq"@) == FlowKind::UncondBranch,
        flow_spec(Arch::X86_64, "je"@) == FlowKind::CondBranch,
        flow_spec(Arch::X86_64, "jne"@) == FlowKind::CondBranch,
        flow_spec(Arch::X86_64, "jz"@) == FlowKind::CondBranch,
        flow_spec(Arch::X86_64, "jnz"@) == FlowKind::CondBranch,
        flow_spec(Arch::X86_64, "ja"@) == FlowKind::CondBranch,
        flow_spec(Arch::X86_64, "jae"@) == FlowKind::CondBranch,
        flow_spec(Arch::X86_64, "jb"@) == FlowKind::CondBranch,
        flow_spec(Arch::X86_64, "jbe"@) == FlowKind::CondBranch,
        flow_spec(Arch::X86_64, "jg"@) == FlowKind::CondBranch,
        flow_spec(Arch::X86_64, "jge"@) == FlowKind::CondBranch,
        flow_spec(Arch::X86_64, "jl"@) == FlowKind::CondBranch,
        flow_spec(Arch::X86_64, "jle"@) == FlowKind::CondBranch,
        flow_spec(Arch::X86_64, "js"@) == FlowKind::CondBranch,
        flow_spec(Arch::X86_64, "jns"@) == FlowKind::CondBranch,
        flow_spec(Arch::X86_64, "jo"@) == FlowKind::CondBranch,
        flow_spec(Arch::X86_64, "jno"@) == FlowKind::CondBranch,
        flow_spec(Arch::X86_64, "jp"@) == FlowKind::CondBranch,
        flow_spec(Arch::X86_64, "jnp"@) == FlowKind::CondBranch,
        flow_spec(Arch::X86_64, "jpe"@) == FlowKind::CondBranch,
        flow_spec(Arch::X86_64, "jpo"@) == FlowKind::CondBranch,
        flow_spec(Arch::X86_64, "jecxz"@) == FlowKind::CondBranch,
        flow_spec(Arch::X86_64, "jrcxz"@) == FlowKind::CondBranch,
        flow_spec(Arch::X86_64, "loop"@) == FlowKind::CondBranch,
        flow_spec(Arch::X86_64, "loope"@) == FlowKind::CondBranch,
        flow_spec(Arch::X86_64, "loopne"@) == FlowKind::CondBranch,
        flow_spec(Arch::X86_64, "loopz"@) == FlowKind::CondBranch,
        flow_spec(Arch::X86_64, "loopnz"@) == FlowKind::CondBranch,
        flow_spec(Arch::X86_64, "syscall"@) == FlowKind::Syscall,
        flow_spec(Arch::X86_64, "sysenter"@) == FlowKind::Syscall,
        flow_spec(Arch::X86_64, "sysexit"@) == FlowKind::Syscall,
        flow_spec(Arch::X86_64, "sysret"@) == FlowKind::Syscall,
        flow_spec(Arch::X86_64, "int"@) == FlowKind::Interrupt,
        flow_spec(Arch::X86_64, "int1"@) == FlowKind::Interrupt,
        flow_spec(Arch::X86_64, "int3"@) == FlowKind::Interrupt,
        flow_spec(Arch::X86_64, "into"@) == FlowKind::Interrupt,
        flow_spec(Arch::X86_64, "ud2"@) == FlowKind::Interrupt,
        flow_spec(Arch::X86_64, "iret"@) == FlowKind::Interrupt,
        flow_spec(Arch::X86_64, "iretq"@) == FlowKind::Interrupt,
        flow_spec(Arch::X86_64, "mov"@) == FlowKind::Normal,
        flow_spec(Arch::X86_64, "nop"@) == FlowKind::Normal,
        flow_spec(Arch::X86_64, "push"@) == FlowKind::Normal,
        flow_spec(Arch::X86_64, "pop"@) == FlowKind::Normal,
        flow_spec(Arch::X86_64, "lea"@) == FlowKind::Normal,
        flow_spec(Arch::X86_64, "cmp"@) == FlowKind::Normal,
        flow_spec(Arch::X86_64, "test"@) == FlowKind::Normal,
{
    reveal_strlit("call");
    reveal_strlit("callq");
    reveal_strlit("cmp");
    reveal_strlit("int");
    reveal_strlit("int1");
    reveal_strlit("int3");
    reveal_strlit("into");
    reveal_strlit("iret");
    reveal_strlit("iretq");
    reveal_strlit("ja");
    reveal_strlit("jae");
    reveal_strlit("jb");
    reveal_strlit("jbe");
    reveal_strlit("je");
    reveal_strlit("jecxz");
    reveal_strlit("jg");
    reveal_strlit("jge");
    reveal_strlit("jl");
    reveal_strlit("jle");
    reveal_strlit("jmp");
    reveal_strlit("jmpq");
    reveal_strlit("jne");
    reveal_strlit("jno");
    reveal_strlit("jnp");
    reveal_strlit("jns");
    reveal_strlit("jnz");
    reveal_strlit("jo");
    reveal_strlit("jp");
    reveal_strlit("jpe");
    reveal_strlit("jpo");
    reveal_strlit("jrcxz");
    reveal_strlit("js");
    reveal_strlit("jz");
    reveal_strlit("lea");
    reveal_strlit("loop");
    reveal_strlit("loope");
    reveal_strlit("loopne");
    reveal_strlit("loopnz");
    reveal_strlit("loopz");
    reveal_strlit("mov");
    reveal_strlit("nop");
    reveal_strlit("pop");
    reveal_strlit("push");
    reveal_strlit("ret");
    reveal_strlit("retf");
    reveal_strlit("retn");
    reveal_strlit("retq");
    reveal_strlit("syscall");
    reveal_strlit("sysenter");
    reveal_strlit("sysexit");
    reveal_strlit("sysret");
    reveal_strlit("test");
    reveal_strlit("ud2");
    assert("call"@.len() == 4 && "call"@[0] == 'c');
    assert("callq"@.len() == 5 && "callq"@[0] == 'c');
    assert("cmp"@.len() == 3 && "cmp"@[0] == 'c');
    assert("int"@.len() == 3 && "int"@[0] == 'i');
    assert("int1"@.len() == 4 && "int1"@[0] == 'i');
    assert("int3"@.len() == 4 && "int3"@[0] == 'i');
    assert("into"@.len() == 4 && "into"@[0] == 'i');
    assert("iret"@.len() == 4 && "iret"@[0] == 'i');
    assert("iretq"@.len() == 5 && "iretq"@[0] == 'i');
    assert("ja"@.len() == 2 && "ja"@[0] == 'j');
    assert("jae"@.len() == 3 && "jae"@[0] == 'j');
    assert("jb"@.len() == 2 && "jb"@[0] == 'j');
    assert("jbe"@.len() == 3 && "jbe"@[0] == 'j');
    assert("je"@.len() == 2 && "je"@[0] == 'j');
    assert("jecxz"@.len() == 5 && "jecxz"@[0] == 'j');
    assert("jg"@.len() == 2 && "jg"@[0] == 'j');
    assert("jge"@.len() == 3 && "jge"@[0] == 'j');
    assert("jl"@.len() == 2 && "jl"@[0] == 'j');
    assert("jle"@.len() == 3 && "jle"@[0] == 'j');
    assert("jmp"@.len() == 3 && "jmp"@[0] == 'j');
    assert("jmpq"@.len() == 4 && "jmpq"@[0] == 'j');
    assert("jne"@.len() == 3 && "jne"@[0] == 'j');
    assert("jno"@.len() == 3 && "jno"@[0] == 'j');
    assert("jnp"@.len() == 3 && "jnp"@[0] == 'j');
    assert("jns"@.len() == 3 && "jns"@[0] == 'j');
    assert("jnz"@.len() == 3 && "jnz"@[0] == 'j');
    assert("jo"@.len() == 2 && "jo"@[0] == 'j');
    assert("jp"@.len() == 2 && "jp"@[0] == 'j');
    assert("jpe"@.len() == 3 && "jpe"@[0] == 'j');
    assert("jpo"@.len() == 3 && "jpo"@[0] == 'j');
    assert("jrcxz"@.len() == 5 && "jrcxz"@[0] == 'j');
    assert("js"@.len() == 2 && "js"@[0] == 'j');
    assert("jz"@.len() == 2 && "jz"@[0] == 'j');
    assert("lea"@.len() == 3 && "lea"@[0] == 'l');
    assert("loop"@.len() == 4 && "loop"@[0] == 'l');
    assert("loope"@.len() == 5 && "loope"@[0] == 'l');
    assert("loopne"@.len() == 6 && "loopne"@[0] == 'l');
    assert("loopnz"@.len() == 6 && "loopnz"@[0] == 'l');
    assert("loopz"@.len() == 5 && "loopz"@[0] == 'l');
    assert("mov"@.len() == 3 && "mov"@[0] == 'm');
    assert("nop"@.len() == 3 && "nop"@[0] == 'n');
    assert("pop"@.len() == 3 && "pop"@[0] == 'p');
    assert("push"@.len() == 4 && "push"@[0] == 'p');
    assert("ret"@.len() == 3 && "ret"@[0] == 'r');
    assert("retf"@.len() == 4 && "retf"@[0] == 'r');
    assert("retn"@.len() == 4 && "retn"@[0] == 'r');
    assert("retq"@.len() == 4 && "retq"@[0] == 'r');
    assert("syscall"@.len() == 7 && "syscall"@[0] == 's');
    assert("sysenter"@.len() == 8 && "sysenter"@[0] == 's');
    assert("sysexit"@.len() == 7 && "sysexit"@[0] == 's');
    assert("sysret"@.len() == 6 && "sysret"@[0] == 's');
    assert("test"@.len() == 4 && "test"@[0] == 't');
    assert("ud2"@.len() == 3 && "ud2"@[0] == 'u');
    assert("jne"@[1] != "jmp"@[1]);
    assert("jnz"@[1] != "jmp"@[1]);
    assert("jae"@[1] != "jmp"@[1]);
    assert("jbe"@[1] != "jmp"@[1]);
    assert("jge"@[1] != "jmp"@[1]);
    assert("jle"@[1] != "jmp"@[1]);
    assert("jns"@[1] != "jmp"@[1]);
    assert("jno"@[1] != "jmp"@[1]);
    assert("jnp"@[1] != "jmp"@[1]);
    assert("jpe"@[1] != "jmp"@[1]);
    assert("jpo"@[1] != "jmp"@[1]);
}

proof fn lemma_aarch64_prefix_b_()
    ensures
        forall|x: Seq<char>| flow_spec(Arch::AArch64, #[trigger] ("b."@ + x)) == FlowKind::CondBranch,
{
    reveal_strlit("b.");
    reveal_strlit("bl");
    reveal_strlit("blr");
    reveal_strlit("ret");
    reveal_strlit("b");
    reveal_strlit("br");
    let p = "b."@;
    assert forall|x: Seq<char>| flow_spec(Arch::AArch64, #[trigger] (p + x)) == FlowKind::CondBranch by {
        assert((p + x).take(2) =~= p);
        assert((p + x)[1] == p[1] && p[1] != "bl"@[1]);
        assert((p + x)[1] == p[1] && p[1] != "blr"@[1]);
        assert((p + x)[0] == p[0] && p[0] != "ret"@[0]);
        assert((p + x).len() != "b"@.len());
        assert((p + x)[1] == p[1] && p[1] != "br"@[1]);
    }
}

/// The AArch64 table: calls, returns, branches, every `b.<cond>` and the
/// compare-and-branch and test-and-branch forms, and the exception-raising
/// instructions are classified by their kind; ordinary instructions are
/// not flow changes.
pub proof fn law_aarch64_flow_table()
    ensures
        flow_spec(Arch::AArch64, "bl"@) == FlowKind::Call,
        flow_spec(Arch::AArch64, "blr"@) == FlowKind::Call,
        flow_spec(Arch::AArch64, "ret"@) == FlowKind::Return,
        flow_spec(Arch::AArch64, "b"@) == FlowKind::UncondBranch,
        flow_spec(Arch::AArch64, "br"@) == FlowKind::UncondBranch,
        flow_spec(Arch::AArch64, "b.eq"@) == FlowKind::CondBranch,
        flow_spec(Arch::AArch64, "b.ne"@) == FlowKind::CondBranch,
        flow_spec(Arch::AArch64, "b.lt"@) == FlowKind::CondBranch,
        flow_spec(Arch::AArch64, "b.ge"@) == FlowKind::CondBranch,
        flow_spec(Arch::AArch64, "b.hi"@) == FlowKind::CondBranch,
        flow_spec(Arch::AArch64, "b.ls"@) == FlowKind::CondBranch,
        flow_spec(Arch::AArch64, "cbz"@) == FlowKind::CondBranch,
        flow_spec(Arch::AArch64, "cbnz"@) == FlowKind::CondBranch,
        flow_spec(Arch::AArch64, "tbz"@) == FlowKind::CondBranch,
        flow_spec(Arch::AArch64, "tbnz"@) == FlowKind::CondBranch,
        flow_spec(Arch::AArch64, "bcz"@) == FlowKind::CondBranch,
        flow_spec(Arch::AArch64, "bcnz"@) == FlowKind::CondBranch,
        flow_spec(Arch::AArch64, "svc"@) == FlowKind::Interrupt,
        flow_spec(Arch::AArch64, "hvc"@) == FlowKind::Interrupt,
        flow_spec(Arch::AArch64, "smc"@) == FlowKind::Interrupt,
        flow_spec(Arch::AArch64, "brk"@) == FlowKind::Interrupt,
        flow_spec(Arch::AArch64, "bkpt"@) == FlowKind::Interrupt,
        flow_spec(Arch::AArch64, "dcps1"@) == FlowKind::Interrupt,
        flow_spec(Arch::AArch64, "dcps2"@) == FlowKind::Interrupt,
        flow_spec(Arch::AArch64, "dcps3"@) == FlowKind::Interrupt,
        flow_spec(Arch::AArch64, "mov"@) == FlowKind::Normal,
        flow_spec(Arch::AArch64, "add"@) == FlowKind::Normal,
        flow_spec(Arch::AArch64, "ldr"@) == FlowKind::Normal,
        flow_spec(Arch::AArch64, "str"@) == FlowKind::Normal,
        flow_spec(Arch::AArch64, "nop"@) == FlowKind::Normal,
        flow_spec(Arch::AArch64, "adrp"@) == FlowKind::Normal,
        forall|x: Seq<char>| flow_spec(Arch::AArch64, #[trigger] ("b."@ + x)) == FlowKind::CondBranch,
{
    reveal_strlit("add");
    reveal_strlit("adrp");
    reveal_strlit("b");
    reveal_strlit("b.");
    reveal_strlit("b.eq");
    reveal_strlit("b.ge");
    reveal_strlit("b.hi");
    reveal_strlit("b.ls");
    reveal_strlit("b.lt");
    reveal_strlit("b.ne");
    reveal_strlit("bcnz");
    reveal_strlit("bcz");
    reveal_strlit("bkpt");
    reveal_strlit("bl");
    reveal_strlit("blr");
    reveal_strlit("br");
    reveal_strlit("brk");
    reveal_strlit("cbnz");
    reveal_strlit("cbz");
    reveal_strlit("dcps1");
    reveal_strlit("dcps2");
    reveal_strlit("dcps3");
    reveal_strlit("hvc");
    reveal_strlit("ldr");
    reveal_strlit("mov");
    reveal_strlit("nop");
    reveal_strlit("ret");
    reveal_strlit("smc");
    reveal_strlit("str");
    reveal_strlit("svc");
    reveal_strlit("tbnz");
    reveal_strlit("tbz");
    assert("add"@.len() == 3 && "add"@[0] == 'a');
    assert("adrp"@.len() == 4 && "adrp"@[0] == 'a');
    assert("b"@.len() == 1 && "b"@[0] == 'b');
    assert("b."@.len() == 2 && "b."@[0] == 'b');
    assert("b.eq"@.len() == 4 && "b.eq"@[0] == 'b');
    assert("b.ge"@.len() == 4 && "b.ge"@[0] == 'b');
    assert("b.hi"@.len() == 4 && "b.hi"@[0] == 'b');
    assert("b.ls"@.len() == 4 && "b.ls"@[0] == 'b');
    assert("b.lt"@.len() == 4 && "b.lt"@[0] == 'b');
    assert("b.ne"@.len() == 4 && "b.ne"@[0] == 'b');
    assert("bcnz"@.len() == 4 && "bcnz"@[0] == 'b');
    assert("bcz"@.len() == 3 && "bcz"@[0] == 'b');
    assert("bkpt"@.len() == 4 && "bkpt"@[0] == 'b');
    assert("bl"@.len() == 2 && "bl"@[0] == 'b');
    assert("blr"@.len() == 3 && "blr"@[0] == 'b');
    assert("br"@.len() == 2 && "br"@[0] == 'b');
    assert("brk"@.len() == 3 && "brk"@[0] == 'b');
    assert("cbnz"@.len() == 4 && "cbnz"@[0] == 'c');
    assert("cbz"@.len() == 3 && "cbz"@[0] == 'c');
    assert("dcps1"@.len() == 5 && "dcps1"@[0] == 'd');
    assert("dcps2"@.len() == 5 && "dcps2"@[0] == 'd');
    assert("dcps3"@.len() == 5 && "dcps3"@[0] == 'd');
    assert("hvc"@.len() == 3 && "hvc"@[0] == 'h');
    assert("ldr"@.len() == 3 && "ldr"@[0] == 'l');
    assert("mov"@.len() == 3 && "mov"@[0] == 'm');
    assert("nop"@.len() == 3 && "nop"@[0] == 'n');
    assert("ret"@.len() == 3 && "ret"@[0] == 'r');
    assert("smc"@.len() == 3 && "smc"@[0] == 's');
    assert("str"@.len() == 3 && "str"@[0] == 's');
    assert("svc"@.len() == 3 && "svc"@[0] == 's');
    assert("tbnz"@.len() == 4 && "tbnz"@[0] == 't');
    assert("tbz"@.len() == 3 && "tbz"@[0] == 't');
    assert("br"@[1] != "bl"@[1]);
    assert("b.eq"@.take(2) =~= "b."@);
    assert("b.ne"@.take(2) =~= "b."@);
    assert("b.lt"@.take(2) =~= "b."@);
    assert("b.ge"@.take(2) =~= "b."@);
    assert("b.hi"@.take(2) =~= "b."@);
    assert("b.ls"@.take(2) =~= "b."@);
    assert("bcz"@[1] != "blr"@[1]);
    assert("brk"@[1] != "blr"@[1]);
    assert("brk"@[1] != "bcz"@[1]);
    assert("brk"@.take(2)[1] != "b."@[1]);
    assert("bkpt"@[1] != "b.eq"@[1]);
    assert("bkpt"@[1] != "b.ne"@[1]);
    assert("bkpt"@[1] != "b.lt"@[1]);
    assert("bkpt"@[1] != "b.ge"@[1]);
    assert("bkpt"@[1] != "b.hi"@[1]);
    assert("bkpt"@[1] != "b.ls"@[1]);
    assert("bkpt"@[1] != "bcnz"@[1]);
    assert("bkpt"@.take(2)[1] != "b."@[1]);
    assert("str"@[1] != "svc"@[1]);
    assert("str"@[1] != "smc"@[1]);
    lemma_aarch64_prefix_b_();
}

proof fn lemma_riscv_prefix_beq()
    ensures
        forall|x: Seq<char>| flow_spec(Arch::Riscv64, #[trigger] ("beq"@ + x)) == FlowKind::CondBranch,
{
    reveal_strlit("beq");
    reveal_strlit("ret");
    reveal_strlit("call");
    reveal_strlit("j");
    reveal_strlit("jr");
    reveal_strlit("c.j");
    reveal_strlit("c.jr");
    reveal_strlit("tail");
    reveal_strlit("jal");
    reveal_strlit("jalr");
    reveal_strlit("c.jal");
    reveal_strlit("c.jalr");
    let p = "beq"@;
    assert forall|x: Seq<char>| flow_spec(Arch::Riscv64, #[trigger] (p + x)) == FlowKind::CondBranch by {
        assert((p + x).take(3) =~= p);
        assert((p + x)[0] == p[0] && p[0] != "ret"@[0]);
        assert((p + x)[0] == p[0] && p[0] != "call"@[0]);
        assert((p + x).len() != "j"@.len());
        assert((p + x).len() != "jr"@.len());
        assert((p + x)[0] == p[0] && p[0] != "c.j"@[0]);
        assert((p + x)[0] == p[0] && p[0] != "c.jr"@[0]);
        assert((p + x)[0] == p[0] && p[0] != "tail"@[0]);
        assert((p + x)[0] == p[0] && p[0] != "jal"@[0]);
        assert((p + x)[0] == p[0] && p[0] != "jalr"@[0]);
        assert((p + x)[0] == p[0] && p[0] != "c.jal"@[0]);
        assert((p + x)[0] == p[0] && p[0] != "c.jalr"@[0]);
    }
}

proof fn lemma_riscv_prefix_bne()
    ensures
        forall|x: Seq<char>| flow_spec(Arch::Riscv64, #[trigger] ("bne"@ + x)) == FlowKind::CondBranch,
{
    reveal_strlit("bne");
    reveal_strlit("ret");
    reveal_strlit("call");
    reveal_strlit("j");
    reveal_strlit("jr");
    reveal_strlit("c.j");
    reveal_strlit("c.jr");
    reveal_strlit("tail");
    reveal_strlit("jal");
    reveal_strlit("jalr");
    reveal_strlit("c.jal");
    reveal_strlit("c.jalr");
    let p = "bne"@;
    assert forall|x: Seq<char>| flow_spec(Arch::Riscv64, #[trigger] (p + x)) == FlowKind::CondBranch by {
        assert((p + x).take(3) =~= p);
        assert((p + x)[0] == p[0] && p[0] != "ret"@[0]);
        assert((p + x)[0] == p[0] && p[0] != "call"@[0]);
        assert((p + x).len() != "j"@.len());
        assert((p + x).len() != "jr"@.len());
        assert((p + x)[0] == p[0] && p[0] != "c.j"@[0]);
        assert((p + x)[0] == p[0] && p[0] != "c.jr"@[0]);
        assert((p + x)[0] == p[0] && p[0] != "tail"@[0]);
        assert((p + x)[0] == p[0] && p[0] != "jal"@[0]);
        assert((p + x)[0] == p[0] && p[0] != "jalr"@[0]);
        assert((p + x)[0] == p[0] && p[0] != "c.jal"@[0]);
        assert((p + x)[0] == p[0] && p[0] != "c.jalr"@[0]);
    }
}

proof fn lemma_riscv_prefix_blt()
    ensures
        forall|x: Seq<char>| flow_spec(Arch::Riscv64, #[trigger] ("blt"@ + x)) == FlowKind::CondBranch,
{
    reveal_strlit("blt");
    reveal_strlit("ret");
    reveal_strlit("call");
    reveal_strlit("j");
    reveal_strlit("jr");
    reveal_strlit("c.j");
    reveal_strlit("c.jr");
    reveal_strlit("tail");
    reveal_strlit("jal");
    reveal_strlit("jalr");
    reveal_strlit("c.jal");
    reveal_strlit("c.jalr");
    let p = "blt"@;
    assert forall|x: Seq<char>| flow_spec(Arch::Riscv64, #[trigger] (p + x)) == FlowKind::CondBranch by {
        assert((p + x).take(3) =~= p);
        assert((p + x)[0] == p[0] && p[0] != "ret"@[0]);
        assert((p + x)[0] == p[0] && p[0] != "call"@[0]);
        assert((p + x).len() != "j"@.len());
        assert((p + x).len() != "jr"@.len());
        assert((p + x)[0] == p[0] && p[0] != "c.j"@[0]);
        assert((p + x)[0] == p[0] && p[0] != "c.jr"@[0]);
        assert((p + x)[0] == p[0] && p[0] != "tail"@[0]);
        assert((p + x)[0] == p[0] && p[0] != "jal"@[0]);
        assert((p + x)[0] == p[0] && p[0] != "jalr"@[0]);
        assert((p + x)[0] == p[0] && p[0] != "c.jal"@[0]);
        assert((p + x)[0] == p[0] && p[0] != "c.jalr"@[0]);
    }
}

proof fn lemma_riscv_prefix_bge()
    ensures
        forall|x: Seq<char>| flow_spec(Arch::Riscv64, #[trigger] ("bge"@ + x)) == FlowKind::CondBranch,
{
    reveal_strlit("bge");
    reveal_strlit("ret");
    reveal_strlit("call");
    reveal_strlit("j");
    reveal_strlit("jr");
    reveal_strlit("c.j");
    reveal_strlit("c.jr");
    reveal_strlit("tail");
    reveal_strlit("jal");
    reveal_strlit("jalr");
    reveal_strlit("c.jal");
    reveal_strlit("c.jalr");
    let p = "bge"@;
    assert forall|x: Seq<char>| flow_spec(Arch::Riscv64, #[trigger] (p + x)) == FlowKind::CondBranch by {
        assert((p + x).take(3) =~= p);
        assert((p + x)[0] == p[0] && p[0] != "ret"@[0]);
        assert((p + x)[0] == p[0] && p[0] != "call"@[0]);
        assert((p + x).len() != "j"@.len());
        assert((p + x).len() != "jr"@.len());
        assert((p + x)[0] == p[0] && p[0] != "c.j"@[0]);
        assert((p + x)[0] == p[0] && p[0] != "c.jr"@[0]);
        assert((p + x)[0] == p[0] && p[0] != "tail"@[0]);
        assert((p + x)[0] == p[0] && p[0] != "jal"@[0]);
        assert((p + x)[0] == p[0] && p[0] != "jalr"@[0]);
        assert((p + x)[0] == p[0] && p[0] != "c.jal"@[0]);
        assert((p + x)[0] == p[0] && p[0] != "c.jalr"@[0]);
    }
}

proof fn lemma_riscv_prefix_c_b()
    ensures
        forall|x: Seq<char>| flow_spec(Arch::Riscv64, #[trigger] ("c.b"@ + x)) == FlowKind::CondBranch,
{
    reveal_strlit("c.b");
    reveal_strlit("ret");
    reveal_strlit("call");
    reveal_strlit("j");
    reveal_strlit("jr");
    reveal_strlit("c.j");
    reveal_strlit("c.jr");
    reveal_strlit("tail");
    reveal_strlit("jal");
    reveal_strlit("jalr");
    reveal_strlit("c.jal");
    reveal_strlit("c.jalr");
    let p = "c.b"@;
    assert forall|x: Seq<char>| flow_spec(Arch::Riscv64, #[trigger] (p + x)) == FlowKind::CondBranch by {
        assert((p + x).take(3) =~= p);
        assert((p + x)[0] == p[0] && p[0] != "ret"@[0]);
        assert((p + x)[1] == p[1] && p[1] != "call"@[1]);
        assert((p + x).len() != "j"@.len());
        assert((p + x).len() != "jr"@.len());
        assert((p + x)[2] == p[2] && p[2] != "c.j"@[2]);
        assert((p + x)[2] == p[2] && p[2] != "c.jr"@[2]);
        assert((p + x)[0] == p[0] && p[0] != "tail"@[0]);
        assert((p + x)[0] == p[0] && p[0] != "jal"@[0]);
        assert((p + x)[0] == p[0] && p[0] != "jalr"@[0]);
        assert((p + x)[2] == p[2] && p[2] != "c.jal"@[2]);
        assert((p + x)[2] == p[2] && p[2] != "c.jalr"@[2]);
    }
}

/// The RISC-V table: `ret`, calls and jumps (plain and compressed), every
/// branch whose mnemonic starts `beq`, `bne`, `blt`, `bge` or `c.b`, the
/// compare-with-zero forms, and the environment calls and trap returns are
/// classified by their kind; ordinary instructions are not flow changes.
pub proof fn law_riscv_flow_table()
    ensures
        flow_spec(Arch::Riscv64, "ret"@) == FlowKind::Return,
        flow_spec(Arch::Riscv64, "call"@) == FlowKind::Call,
        flow_spec(Arch::Riscv64, "j"@) == FlowKind::UncondBranch,
        flow_spec(Arch::Riscv64, "jr"@) == FlowKind::UncondBranch,
        flow_spec(Arch::Riscv64, "c.j"@) == FlowKind::UncondBranch,
        flow_spec(Arch::Riscv64, "c.jr"@) == FlowKind::UncondBranch,
        flow_spec(Arch::Riscv64, "tail"@) == FlowKind::UncondBranch,
        flow_spec(Arch::Riscv64, "jal"@) == FlowKind::Call,
        flow_spec(Arch::Riscv64, "jalr"@) == FlowKind::Call,
        flow_spec(Arch::Riscv64, "c.jal"@) == FlowKind::Call,
        flow_spec(Arch::Riscv64, "c.jalr"@) == FlowKind::Call,
        flow_spec(Arch::Riscv64, "blez"@) == FlowKind::CondBranch,
        flow_spec(Arch::Riscv64, "bgtz"@) == FlowKind::CondBranch,
        flow_spec(Arch::Riscv64, "ecall"@) == FlowKind::Interrupt,
        flow_spec(Arch::Riscv64, "ebreak"@) == FlowKind::Interrupt,
        flow_spec(Arch::Riscv64, "c.ecall"@) == FlowKind::Interrupt,
        flow_spec(Arch::Riscv64, "c.ebreak"@) == FlowKind::Interrupt,
        flow_spec(Arch::Riscv64, "sret"@) == FlowKind::Interrupt,
        flow_spec(Arch::Riscv64, "mret"@) == FlowKind::Interrupt,
        flow_spec(Arch::Riscv64, "addi"@) == FlowKind::Normal,
        flow_spec(Arch::Riscv64, "ld"@) == FlowKind::Normal,
        flow_spec(Arch::Riscv64, "sd"@) == FlowKind::Normal,
        flow_spec(Arch::Riscv64, "lui"@) == FlowKind::Normal,
        flow_spec(Arch::Riscv64, "auipc"@) == FlowKind::Normal,
        flow_spec(Arch::Riscv64, "nop"@) == FlowKind::Normal,
        flow_spec(Arch::Riscv64, "mv"@) == FlowKind::Normal,
        flow_spec(Arch::Riscv64, "c.li"@) == FlowKind::Normal,
        forall|x: Seq<char>| flow_spec(Arch::Riscv64, #[trigger] ("beq"@ + x)) == FlowKind::CondBranch,
        forall|x: Seq<char>| flow_spec(Arch::Riscv64, #[trigger] ("bne"@ + x)) == FlowKind::CondBranch,
        forall|x: Seq<char>| flow_spec(Arch::Riscv64, #[trigger] ("blt"@ + x)) == FlowKind::CondBranch,
        forall|x: Seq<char>| flow_spec(Arch::Riscv64, #[trigger] ("bge"@ + x)) == FlowKind::CondBranch,
        forall|x: Seq<char>| flow_spec(Arch::Riscv64, #[trigger] ("c.b"@ + x)) == FlowKind::CondBranch,
{
    reveal_strlit("addi");
    reveal_strlit("auipc");
    reveal_strlit("beq");
    reveal_strlit("beqz");
    reveal_strlit("bge");
    reveal_strlit("bgeu");
    reveal_strlit("bgez");
    reveal_strlit("bgtz");
    reveal_strlit("blez");
    reveal_strlit("blt");
    reveal_strlit("bltu");
    reveal_strlit("bltz");
    reveal_strlit("bne");
    reveal_strlit("bnez");
    reveal_strlit("c.b");
    reveal_strlit("c.beqz");
    reveal_strlit("c.bnez");
    reveal_strlit("c.ebreak");
    reveal_strlit("c.ecall");
    reveal_strlit("c.j");
    reveal_strlit("c.jal");
    reveal_strlit("c.jalr");
    reveal_strlit("c.jr");
    reveal_strlit("c.li");
    reveal_strlit("call");
    reveal_strlit("ebreak");
    reveal_strlit("ecall");
    reveal_strlit("j");
    reveal_strlit("jal");
    reveal_strlit("jalr");
    reveal_strlit("jr");
    reveal_strlit("ld");
    reveal_strlit("lui");
    reveal_strlit("mret");
    reveal_strlit("mv");
    reveal_strlit("nop");
    reveal_strlit("ret");
    reveal_strlit("sd");
    reveal_strlit("sret");
    reveal_strlit("tail");
    assert("addi"@.len() == 4 && "addi"@[0] == 'a');
    assert("auipc"@.len() == 5 && "auipc"@[0] == 'a');
    assert("beq"@.len() == 3 && "beq"@[0] == 'b');
    assert("beqz"@.len() == 4 && "beqz"@[0] == 'b');
    assert("bge"@.len() == 3 && "bge"@[0] == 'b');
    assert("bgeu"@.len() == 4 && "bgeu"@[0] == 'b');
    assert("bgez"@.len() == 4 && "bgez"@[0] == 'b');
    assert("bgtz"@.len() == 4 && "bgtz"@[0] == 'b');
    assert("blez"@.len() == 4 && "blez"@[0] == 'b');
    assert("blt"@.len() == 3 && "blt"@[0] == 'b');
    assert("bltu"@.len() == 4 && "bltu"@[0] == 'b');
    assert("bltz"@.len() == 4 && "bltz"@[0] == 'b');
    assert("bne"@.len() == 3 && "bne"@[0] == 'b');
    assert("bnez"@.len() == 4 && "bnez"@[0] == 'b');
    assert("c.b"@.len() == 3 && "c.b"@[0] == 'c');
    assert("c.beqz"@.len() == 6 && "c.beqz"@[0] == 'c');
    assert("c.bnez"@.len() == 6 && "c.bnez"@[0] == 'c');
    assert("c.ebreak"@.len() == 8 && "c.ebreak"@[0] == 'c');
    assert("c.ecall"@.len() == 7 && "c.ecall"@[0] == 'c');
    assert("c.j"@.len() == 3 && "c.j"@[0] == 'c');
    assert("c.jal"@.len() == 5 && "c.jal"@[0] == 'c');
    assert("c.jalr"@.len() == 6 && "c.jalr"@[0] == 'c');
    assert("c.jr"@.len() == 4 && "c.jr"@[0] == 'c');
    assert("c.li"@.len() == 4 && "c.li"@[0] == 'c');
    assert("call"@.len() == 4 && "call"@[0] == 'c');
    assert("ebreak"@.len() == 6 && "ebreak"@[0] == 'e');
    assert("ecall"@.len() == 5 && "ecall"@[0] == 'e');
    assert("j"@.len() == 1 && "j"@[0] == 'j');
    assert("jal"@.len() == 3 && "jal"@[0] == 'j');
    assert("jalr"@.len() == 4 && "jalr"@[0] == 'j');
    assert("jr"@.len() == 2 && "jr"@[0] == 'j');
    assert("ld"@.len() == 2 && "ld"@[0] == 'l');
    assert("lui"@.len() == 3 && "lui"@[0] == 'l');
    assert("mret"@.len() == 4 && "mret"@[0] == 'm');
    assert("mv"@.len() == 2 && "mv"@[0] == 'm');
    assert("nop"@.len() == 3 && "nop"@[0] == 'n');
    assert("ret"@.len() == 3 && "ret"@[0] == 'r');
    assert("sd"@.len() == 2 && "sd"@[0] == 's');
    assert("sret"@.len() == 4 && "sret"@[0] == 's');
    assert("tail"@.len() == 4 && "tail"@[0] == 't');
    assert("c.jr"@[1] != "call"@[1]);
    assert("beq"@.take(3) =~= "beq"@);
    assert("bne"@.take(3) =~= "bne"@);
    assert("blt"@.take(3) =~= "blt"@);
    assert("bge"@.take(3) =~= "bge"@);
    assert("bltu"@.take(3) =~= "blt"@);
    assert("bgeu"@.take(3) =~= "bge"@);
    assert("beqz"@.take(3) =~= "beq"@);
    assert("bnez"@.take(3) =~= "bne"@);
    assert("bgez"@.take(3) =~= "bge"@);
    assert("bltz"@.take(3) =~= "blt"@);
    assert("c.beqz"@.take(6) =~= "c.beqz"@);
    assert("c.beqz"@[2] != "c.jalr"@[2]);
    assert("c.bnez"@.take(6) =~= "c.bnez"@);
    assert("c.bnez"@[2] != "c.jalr"@[2]);
    assert("c.ecall"@.take(6)[2] != "c.beqz"@[2]);
    assert("c.ecall"@.take(6)[2] != "c.bnez"@[2]);
    assert("c.ecall"@.take(3)[2] != "c.b"@[2]);
    assert("c.ebreak"@.take(6)[2] != "c.beqz"@[2]);
    assert("c.ebreak"@.take(6)[2] != "c.bnez"@[2]);
    assert("c.ebreak"@.take(3)[2] != "c.b"@[2]);
    assert("c.li"@[1] != "call"@[1]);
    assert("c.li"@[2] != "c.jr"@[2]);
    assert("c.li"@.take(3)[2] != "c.b"@[2]);
    lemma_riscv_prefix_beq();
    lemma_riscv_prefix_bne();
    lemma_riscv_prefix_blt();
    lemma_riscv_prefix_bge();
    lemma_riscv_prefix_c_b();
}

fn is_x86_cond_branch(m: &[char]) -> (r: bool)
    ensures
        r == x86_cond_branch(m@),
{
    eq_lit(m, "je") || eq_lit(m, "jne") || eq_lit(m, "jz") || eq_lit(m, "jnz") || eq_lit(m, "ja")
        || eq_lit(m, "jae") || eq_lit(m, "jb") || eq_lit(m, "jbe") || eq_lit(m, "jg") || eq_lit(
        m,
        "jge",
    ) || eq_lit(m, "jl") || eq_lit(m, "jle") || eq_lit(m, "js") || eq_lit(m, "jns") || eq_lit(
        m,
        "jo",
    ) || eq_lit(m, "jno") || eq_lit(m, "jp") || eq_lit(m, "jnp") || eq_lit(m, "jpe") || eq_lit(
        m,
        "jpo",
    ) || eq_lit(m, "jecxz") || eq_lit(m, "jrcxz") || eq_lit(m, "loop") || eq_lit(m, "loope")
        || eq_lit(m, "loopne") || eq_lit(m, "loopz") || eq_lit(m, "loopnz")
}

fn classify_x86(m: &[char]) -> (r: FlowKind)
    ensures
        r == x86_flow(m@),
{
    // Intel syntax mnemonics as printed by binutils.
    if eq_lit(m, "call") || eq_lit(m, "callq") {
        FlowKind::Call
    } else if eq_lit(m, "ret") || eq_lit(m, "retq") || eq_lit(m, "retn") || eq_lit(m, "retf") {
        FlowKind::Return
    } else if eq_lit(m, "jmp") || eq_lit(m, "jmpq") {
        FlowKind::UncondBranch
    } else if is_x86_cond_branch(m) {
        FlowKind::CondBranch
    } else if eq_lit(m, "syscall") || eq_lit(m, "sysenter") || eq_lit(m, "sysexit") || eq_lit(
        m,
        "sysret",
    ) {
        FlowKind::Syscall
    } else if eq_lit(m, "int") || eq_lit(m, "int1") || eq_lit(m, "int3") || eq_lit(m, "into")
        || eq_lit(m, "ud2") || eq_lit(m, "iret") || eq_lit(m, "iretq") {
        FlowKind::Interrupt
    } else {
        FlowKind::Normal
    }
}

fn classify_aarch64(m: &[char]) -> (r: FlowKind)
    ensures
        r == aarch64_flow(m@),
{
    if eq_lit(m, "bl") || eq_lit(m, "blr") {
        FlowKind::Call
    } else if eq_lit(m, "ret") {
        FlowKind::Return
    } else if eq_lit(m, "b") || eq_lit(m, "br") {
        FlowKind::UncondBranch
    } else if starts_with_lit(m, "b.") || eq_lit(m, "cbz") || eq_lit(m, "cbnz") || eq_lit(m, "tbz")
        || eq_lit(m, "tbnz") || eq_lit(m, "bcz") || eq_lit(m, "bcnz") {
        FlowKind::CondBranch
    } else if eq_lit(m, "svc") || eq_lit(m, "hvc") || eq_lit(m, "smc") || eq_lit(m, "brk")
        || eq_lit(m, "bkpt") || eq_lit(m, "dcps1") || eq_lit(m, "dcps2") || eq_lit(m, "dcps3") {
        // svc is the A64 syscall convention.
        FlowKind::Interrupt
    } else {
        FlowKind::Normal
    }
}

fn is_riscv_cond_branch(m: &[char]) -> (r: bool)
    ensures
        r == riscv_cond_branch(m@),
{
    starts_with_lit(m, "beq") || starts_with_lit(m, "bne") || starts_with_lit(m, "blt")
        || starts_with_lit(m, "bge") || starts_with_lit(m, "bgeu") || starts_with_lit(m, "bltu")
        || eq_lit(m, "beqz") || eq_lit(m, "bnez") || eq_lit(m, "blez") || eq_lit(m, "bgez")
        || eq_lit(m, "bltz") || eq_lit(m, "bgtz") || starts_with_lit(m, "c.beqz")
        || starts_with_lit(m, "c.bnez") || starts_with_lit(m, "c.b")
}

fn classify_riscv(m: &[char]) -> (r: FlowKind)
    ensures
        r == riscv_flow(m@),
{
    // Match actual binutils printed mnemonics (including c.* compressed forms).
    if eq_lit(m, "ret") {
        FlowKind::Return
    } else if eq_lit(m, "call") {
        FlowKind::Call
    } else if eq_lit(m, "j") || eq_lit(m, "jr") || eq_lit(m, "c.j") || eq_lit(m, "c.jr") || eq_lit(
        m,
        "tail",
    ) {
        FlowKind::UncondBranch
    } else if eq_lit(m, "jal") || eq_lit(m, "jalr") || eq_lit(m, "c.jal") || eq_lit(m, "c.jalr") {
        // non-ret forms (ret handled above)
        FlowKind::Call
    } else if is_riscv_cond_branch(m) {
        FlowKind::CondBranch
    } else if eq_lit(m, "ecall") || eq_lit(m, "ebreak") || eq_lit(m, "c.ecall") || eq_lit(
        m,
        "c.ebreak",
    ) || eq_lit(m, "sret") || eq_lit(m, "mret") {
        FlowKind::Interrupt
    } else {
        FlowKind::Normal
    }
}

/// Flow kind of a printed (lowercased) mnemonic.
pub fn classify(arch: Arch, m: &[char]) -> (r: FlowKind)
    ensures
        r == flow_spec(arch, m@),
{
    match arch {
        Arch::X86_64 => classify_x86(m),
        Arch::AArch64 => classify_aarch64(m),
        Arch::Riscv64 => classify_riscv(m),
    }
}

// ---------------------------------------------------------------------------
// From the disassembler's raw output to an instruction
// ---------------------------------------------------------------------------

/// The printed text stops at the first NUL byte, or fills the buffer.
pub open spec fn until_nul(raw: Seq<u8>, k: int) -> bool {
    &&& 0 <= k <= raw.len()
    &&& forall|i: int| 0 <= i < k ==> raw[i] != 0
    &&& (k == raw.len() || raw[k] == 0)
}

/// Control characters are shown as spaces: binutils separates mnemonic and
/// operands with a TAB, which must never reach the terminal.
pub open spec fn sanitize(text: Seq<char>) -> Seq<char> {
    text.map_values(|c: char| if is_control_spec(c) { ' ' } else { c })
}

pub open spec fn skip_whitespace(s: Seq<char>) -> Seq<char>
    decreases s.len(),
{
    if s.len() > 0 && is_whitespace_spec(s[0]) {
        skip_whitespace(s.drop_first())
    } else {
        s
    }
}

pub open spec fn leading_word(s: Seq<char>) -> Seq<char>
    decreases s.len(),
{
    if s.len() == 0 || is_whitespace_spec(s[0]) {
        Seq::empty()
    } else {
        seq![s[0]] + leading_word(s.drop_first())
    }
}

/// `split_whitespace().next().unwrap_or("")`.
pub open spec fn first_word(s: Seq<char>) -> Seq<char> {
    leading_word(skip_whitespace(s))
}

pub open spec fn ascii_lowercase(s: Seq<char>) -> Seq<char> {
    s.map_values(|c: char| ascii_lower_spec(c))
}

/// Flow kinds whose first captured address is a branch target.
pub open spec fn has_branch_target(f: FlowKind) -> bool {
    f == FlowKind::Call || f == FlowKind::Return || f == FlowKind::CondBranch || f
        == FlowKind::UncondBranch
}

/// Number of captured targets actually used: the raw count, clamped to the
/// four slots the disassembler fills.
pub open spec fn target_count(ntargets: i32) -> int {
    if ntargets < 0 {
        0
    } else if ntargets > 4 {
        4
    } else {
        ntargets as int
    }
}

/// The result for a failed or empty disassembly.
pub open spec fn is_invalid_insn(insn: Insn) -> bool {
    &&& insn.len == 0
    &&& insn.text@ == Seq::<char>::empty()
    &&& insn.mnemonic@ == Seq::<char>::empty()
    &&& insn.targets@ == Seq::<u64>::empty()
    &&& insn.flow == FlowKind::Normal
    &&& insn.branch_target is None
}

impl Insn {
    /// No instruction: length 0, empty text, normal flow.
    pub fn invalid() -> (insn: Insn)
        ensures
            is_invalid_insn(insn),
    {
        Insn {
            len: 0,
            text: String::new(),
            mnemonic: String::new(),
            targets: Vec::new(),
            flow: FlowKind::Normal,
            branch_target: None,
        }
    }
}

fn text_end(raw: &[u8]) -> (k: usize)
    ensures
        until_nul(raw@, k as int),
{
    let mut k: usize = 0;
    while k < raw.len() && raw[k] != 0
        invariant
            k <= raw@.len(),
            forall|i: int| 0 <= i < k ==> raw@[i] != 0,
        decreases raw@.len() - k,
    {
        k = k + 1;
    }
    k
}

fn sanitized_chars(s: &str) -> (v: Vec<char>)
    ensures
        v@ == sanitize(s@),
{
    let cs = chars_of(s);
    let mut v: Vec<char> = Vec::new();
    let mut i: usize = 0;
    while i < cs.len()
        invariant
            i <= cs@.len(),
            cs@ == s@,
            v@ == sanitize(cs@.take(i as int)),
        decreases cs@.len() - i,
    {
        let c = cs[i];
        if is_control(c) {
            v.push(' ');
        } else {
            v.push(c);
        }
        i = i + 1;
        assert(v@ =~= sanitize(cs@.take(i as int)));
    }
    assert(cs@.take(i as int) =~= cs@);
    v
}

proof fn lemma_skip_whitespace_step(s: Seq<char>, i: int)
    requires
        0 <= i < s.len(),
        is_whitespace_spec(s[i]),
    ensures
        skip_whitespace(s.skip(i)) == skip_whitespace(s.skip(i + 1)),
{
    assert(s.skip(i).drop_first() =~= s.skip(i + 1));
}

proof fn lemma_leading_word_step(s: Seq<char>, i: int)
    requires
        0 <= i < s.len(),
        !is_whitespace_spec(s[i]),
    ensures
        leading_word(s.skip(i)) == seq![s[i]] + leading_word(s.skip(i + 1)),
{
    assert(s.skip(i).drop_first() =~= s.skip(i + 1));
}

/// First whitespace-separated word of `text`, ASCII-lowercased.
fn mnemonic_of(text: &[char]) -> (m: Vec<char>)
    ensures
        m@ == ascii_lowercase(first_word(text@)),
{
    let n = text.len();
    let mut i: usize = 0;
    assert(text@.skip(0) =~= text@);
    while i < n && is_whitespace(text[i])
        invariant
            i <= n == text@.len(),
            skip_whitespace(text@) == skip_whitespace(text@.skip(i as int)),
        decreases n - i,
    {
        proof {
            lemma_skip_whitespace_step(text@, i as int);
        }
        i = i + 1;
    }
    let start = i;
    assert(skip_whitespace(text@.skip(start as int)) == text@.skip(start as int));
    let mut m: Vec<char> = Vec::new();
    while i < n && !is_whitespace(text[i])
        invariant
            start <= i <= n == text@.len(),
            m@ == ascii_lowercase(text@.subrange(start as int, i as int)),
            leading_word(text@.skip(start as int)) == text@.subrange(start as int, i as int)
                + leading_word(text@.skip(i as int)),
        decreases n - i,
    {
        proof {
            lemma_leading_word_step(text@, i as int);
            assert(text@.subrange(start as int, i as int) + (seq![text@[i as int]] + leading_word(
                text@.skip(i as int + 1),
            )) =~= text@.subrange(start as int, i as int + 1) + leading_word(
                text@.skip(i as int + 1),
            ));
        }
        m.push(ascii_lower(text[i]));
        i = i + 1;
        assert(m@ =~= ascii_lowercase(text@.subrange(start as int, i as int)));
    }
    assert(leading_word(text@.skip(i as int)) =~= Seq::<char>::empty()) by {
        if i < n {
            assert(text@.skip(i as int)[0] == text@[i as int]);
        }
    }
    assert(text@.subrange(start as int, i as int) + Seq::<char>::empty() =~= text@.subrange(
        start as int,
        i as int,
    ));
    m
}

/// Builds an instruction from what the disassembler shim reported: its
/// return code, the NUL-terminated text buffer, the length, and up to four
/// captured addresses.
pub fn decode_raw_insn(
    arch: Arch,
    rc: i32,
    raw_text: &[u8],
    raw_len: i32,
    ntargets: i32,
    raw_targets: &[u64; 4],
) -> (insn: Insn)
    ensures
        rc != 0 || raw_len <= 0 ==> is_invalid_insn(insn),
        rc == 0 && raw_len > 0 ==> {
            &&& insn.len == raw_len as usize
            &&& exists|k: int|
                until_nul(raw_text@, k) && insn.text@ == sanitize(
                    lossy_utf8(#[trigger] raw_text@.take(k)),
                )
            &&& insn.mnemonic@ == ascii_lowercase(first_word(insn.text@))
            &&& insn.targets@ == raw_targets@.take(target_count(ntargets))
            &&& insn.flow == flow_spec(arch, insn.mnemonic@)
            &&& insn.branch_target == if has_branch_target(insn.flow) && insn.targets@.len() > 0 {
                Some(insn.targets@[0])
            } else {
                None
            }
        },
{
    if rc != 0 || raw_len <= 0 {
        return Insn::invalid();
    }
    let end = text_end(raw_text);
    let printed = utf8_lossy(slice_prefix(raw_text, end));
    let text_chars = sanitized_chars(printed.as_str());
    let mnemonic_chars = mnemonic_of(text_chars.as_slice());
    let count: usize = if ntargets < 0 {
        0
    } else if ntargets > 4 {
        4
    } else {
        ntargets as usize
    };
    let mut targets: Vec<u64> = Vec::new();
    let mut i: usize = 0;
    while i < count
        invariant
            i <= count,
            count as int == target_count(ntargets),
            targets@ == raw_targets@.take(i as int),
        decreases count - i,
    {
        targets.push(raw_targets[i]);
        i = i + 1;
        assert(targets@ =~= raw_targets@.take(i as int));
    }
    let flow = classify(arch, mnemonic_chars.as_slice());
    let branch_target = match flow {
        FlowKind::Call | FlowKind::Return | FlowKind::CondBranch | FlowKind::UncondBranch => {
            if targets.len() > 0 {
                Some(targets[0])
            } else {
                None
            }
        },
        _ => None,
    };
    let insn = Insn {
        len: raw_len as usize,
        text: string_from_chars(text_chars.as_slice()),
        mnemonic: string_from_chars(mnemonic_chars.as_slice()),
        targets,
        flow,
        branch_target,
    };
    assert(raw_text@.take(end as int) == slice_prefix_spec(raw_text@, end as int));
    insn
}

pub open spec fn slice_prefix_spec(s: Seq<u8>, k: int) -> Seq<u8> {
    s.take(k)
}

fn slice_prefix(s: &[u8], k: usize) -> (r: &[u8])
    requires
        k <= s@.len(),
    ensures
        r@ == s@.take(k as int),
{
    vstd::slice::slice_subrange(s, 0, k)
}


/// Printed text never carries control characters: they would corrupt the
/// terminal the listing is drawn on.
pub proof fn law_text_has_no_control_chars(printed: Seq<char>)
    ensures
        forall|i: int| 0 <= i < sanitize(printed).len() ==> !is_control_spec(#[trigger] sanitize(printed)[i]),
{
}

proof fn lemma_skip_whitespace_blank(s: Seq<char>)
    ensures
        skip_whitespace(s).len() == 0 <==> forall|i: int| 0 <= i < s.len() ==> is_whitespace_spec(#[trigger] s[i]),
        skip_whitespace(s).len() > 0 ==> !is_whitespace_spec(skip_whitespace(s)[0]),
    decreases s.len(),
{
    if s.len() > 0 && is_whitespace_spec(s[0]) {
        lemma_skip_whitespace_blank(s.drop_first());
        assert forall|i: int| 0 <= i < s.len() && (forall|j: int| 0 <= j < s.drop_first().len() ==> is_whitespace_spec(#[trigger] s.drop_first()[j])) implies is_whitespace_spec(#[trigger] s[i]) by {
            if i > 0 {
                assert(s[i] == s.drop_first()[i - 1]);
            }
        }
    }
}

/// The mnemonic is empty only when the printed text is blank.
pub proof fn law_mnemonic_empty_only_for_blank_text(text: Seq<char>)
    ensures
        ascii_lowercase(first_word(text)).len() == 0 <==> forall|i: int|
            0 <= i < text.len() ==> is_whitespace_spec(#[trigger] text[i]),
{
    lemma_skip_whitespace_blank(text);
    let s = skip_whitespace(text);
    if s.len() > 0 {
        assert(leading_word(s) == seq![s[0]] + leading_word(s.drop_first()));
    }
}


proof fn lemma_leading_word_no_whitespace(s: Seq<char>)
    ensures
        forall|i: int|
            0 <= i < leading_word(s).len() ==> !is_whitespace_spec(#[trigger] leading_word(s)[i]),
    decreases s.len(),
{
    if s.len() > 0 && !is_whitespace_spec(s[0]) {
        lemma_leading_word_no_whitespace(s.drop_first());
        let w = leading_word(s);
        assert forall|i: int| 0 <= i < w.len() implies !is_whitespace_spec(#[trigger] w[i]) by {
            if i > 0 {
                assert(w[i] == leading_word(s.drop_first())[i - 1]);
            }
        }
    }
}

/// The mnemonic is one word: no whitespace, and no ASCII capitals.
pub proof fn law_mnemonic_is_one_lowercase_word(text: Seq<char>)
    ensures
        forall|i: int|
            0 <= i < ascii_lowercase(first_word(text)).len() ==> {
                let c = #[trigger] ascii_lowercase(first_word(text))[i];
                !is_whitespace_spec(c) && !(0x41 <= (c as u32) && (c as u32) <= 0x5a)
            },
{
    lemma_leading_word_no_whitespace(skip_whitespace(text));
    let w = first_word(text);
    assert forall|i: int| 0 <= i < ascii_lowercase(w).len() implies {
        let c = #[trigger] ascii_lowercase(w)[i];
        !is_whitespace_spec(c) && !(0x41 <= (c as u32) && (c as u32) <= 0x5a)
    } by {
        assert(!is_whitespace_spec(w[i]));
    }
}

} // verus!
