use bums::parser::{parse_x86_line, X86Operand};

#[test]
fn parse_mov_mem() {
    let l = "mov r11d, dword ptr [rdi + 4]";
    let ins = parse_x86_line(l).unwrap();
    assert_eq!(ins.opcode, "mov");
}

#[test]
fn parse_vmovdqu() {
    let l = "vmovdqu ymm0, ymmword ptr [rsi]";
    let ins = parse_x86_line(l).unwrap();
    assert_eq!(ins.opcode, "vmovdqu");
}

#[test]
fn parse_mem_index_scale_and_disp() {
    let l = "mov rax, qword ptr [rcx + rdx*2 + -8]";
    let ins = parse_x86_line(l).unwrap();
    assert_eq!(ins.opcode, "mov");
    if let X86Operand::Mem { base, index, scale, disp } = &ins.operands[1] {
        assert_eq!(base.as_ref().map(|s| s.as_str()), Some("rcx"));
        assert_eq!(index.as_ref().map(|s| s.as_str()), Some("rdx"));
        assert_eq!(*scale, 2);
        assert_eq!(*disp, -8);
    } else {
        panic!("expected mem operand");
    }
}

#[test]
fn parse_rip_relative_label() {
    let l = "vmovdqu ymm0, ymmword ptr [rip + .L_table]";
    let ins = parse_x86_line(l).unwrap();
    assert_eq!(ins.opcode, "vmovdqu");
    if let X86Operand::Mem { base, index: _, scale, disp } = &ins.operands[1] {
        assert_eq!(base.as_ref().map(|s| s.as_str()), Some("rip"));
        // scale default is 1
        assert_eq!(*scale, 1);
        // displacement absent -> 0
        assert_eq!(*disp, 0);
    } else {
        panic!("expected mem operand");
    }
}

fn operand(line: &str, i: usize) -> X86Operand {
    parse_x86_line(line).unwrap().operands[i].clone()
}

#[test]
fn register_like_tokens_need_alphabetic_tails() {
    // "rxy": r and two letters reads as a register
    assert!(matches!(operand("jmp rxy", 0), X86Operand::Reg(ref s) if s == "rxy"));
    // "r1z": neither all digits nor all letters after the r: a label
    assert!(matches!(operand("jmp r1z", 0), X86Operand::Label(ref s) if s == "r1z"));
    // letters outside ASCII are letters too; the tail's length counts bytes
    assert!(matches!(operand("jmp rλ", 0), X86Operand::Reg(ref s) if s == "rλ"));
    assert!(matches!(operand("jmp rλμ", 0), X86Operand::Label(ref s) if s == "rλμ"));
}

#[test]
fn non_alphanumeric_tokens_are_other() {
    assert!(matches!(operand("call foo", 0), X86Operand::Label(ref s) if s == "foo"));
    assert!(matches!(operand("call a-b", 0), X86Operand::Other(ref s) if s == "a-b"));
    assert!(matches!(operand("call .L_x", 0), X86Operand::Label(ref s) if s == ".L_x"));
}

#[test]
fn numeric_parts_of_memory_operands_are_displacements() {
    if let X86Operand::Mem { base, index, scale, disp } = operand("mov rax, [rbx + 0x10]", 1) {
        assert_eq!(base.as_deref(), Some("rbx"));
        assert_eq!(index, None);
        assert_eq!(scale, 1);
        assert_eq!(disp, 16);
    } else {
        panic!("expected mem operand");
    }
    // a digit of another script is numeric: it is read as a displacement
    // (which does not parse, so nothing is added), not as an index
    if let X86Operand::Mem { base, index, disp, .. } = operand("mov rax, [rbx + \u{0663}]", 1) {
        assert_eq!(base.as_deref(), Some("rbx"));
        assert_eq!(index, None);
        assert_eq!(disp, 0);
    } else {
        panic!("expected mem operand");
    }
}

#[test]
fn immediates_and_blank_lines() {
    assert!(matches!(operand("mov rax, 42", 1), X86Operand::Imm(42)));
    assert!(matches!(operand("mov rax, #-7", 1), X86Operand::Imm(-7)));
    assert!(parse_x86_line("   ").is_none());
}

#[test]
fn operand_count_is_nonempty_parts() {
    let ins = parse_x86_line("add rax, , 8,  ").unwrap();
    assert_eq!(ins.operands.len(), 2);
    let ins = parse_x86_line("vpxor ymm0, ymm1, ymm2").unwrap();
    assert_eq!(ins.operands.len(), 3);
    let ins = parse_x86_line("ret").unwrap();
    assert_eq!(ins.operands.len(), 0);
}
