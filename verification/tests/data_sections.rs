use bums::common::RegisterKind;
use bums::engine::ExecutionEngineX86;
use bums::run::{Action, Explorer};

fn load(src: &str) -> ExecutionEngineX86 {
    let lines: Vec<String> = src.lines().map(|l| l.to_string()).collect();
    ExecutionEngineX86::from_asm_lines_checked(&lines).expect("file loads")
}

fn run_plain(engine: &mut ExecutionEngineX86) {
    let mut ex = Explorer::new(engine);
    loop {
        match ex.advance(engine) {
            Action::Stepped => {}
            Action::Finished => return,
            _ => panic!("unexpected action"),
        }
    }
}

fn byte(engine: &ExecutionEngineX86, addr: i64) -> u8 {
    engine.computer.memory.get("memory").expect("memory region missing").get(addr).expect("byte").offset as u8
}

#[test]
fn from_asm_file_parses_data_sections() {
    let content = "\n.globl L_start\n.L_data:\n.byte 0x41, 0x42\n.long 0x12345678\n.quad 0x1122334455667788\n.asciz \"hello\"\n";
    let engine = load(content);
    assert!(engine.computer.memory_labels.contains_key(".L_data") || engine.computer.memory_labels.contains_key(".L_data:"));
}

#[test]
fn align_semantics_exponent_and_bytes() {
    let content = "\n.L_a:\n.byte 0x01\n.align 2\n.L_b:\n.byte 0x02\n.align 16\n.L_c:\n.byte 0x03\n";
    let engine = load(content);
    let a = *engine.computer.memory_labels.get(".L_a").expect("label a");
    let b = *engine.computer.memory_labels.get(".L_b").expect("label b");
    let c = *engine.computer.memory_labels.get(".L_c").expect("label c");
    assert_eq!(a, 4);
    assert_eq!(b, 8);
    assert_eq!(c, 16);
}

#[test]
fn align_variants_behave_as_expected() {
    let content = "\n.L_a:\n.byte 0x01\n.align 2\n.L_b:\n.byte 0x02\n.align 16\n.L_c:\n.byte 0x03\n";
    let engine = load(content);
    assert_eq!(*engine.computer.memory_labels.get(".L_a").expect("label a"), 4);
    assert_eq!(*engine.computer.memory_labels.get(".L_b").expect("label b"), 8);
    assert_eq!(*engine.computer.memory_labels.get(".L_c").expect("label c"), 16);
}

#[test]
fn directive_expression_parsing_multiply_and_byte_suffix() {
    let engine = load(".L_e:\n.hword 16 * 12\n.hword 320b\n");
    let addr = *engine.computer.memory_labels.get(".L_e").expect("label");
    let val = (byte(&engine, addr + 1) as u16) << 8 | (byte(&engine, addr) as u16);
    assert_eq!(val, 192);
    let val2 = (byte(&engine, addr + 3) as u16) << 8 | (byte(&engine, addr + 2) as u16);
    assert_eq!(val2, 320);
}

#[test]
fn parse_numeric_parens_and_multiply() {
    let engine = load(".L_e:\n.hword (16 * 12)\n.hword 320b\n");
    let addr = *engine.computer.memory_labels.get(".L_e").expect("label");
    let val = (byte(&engine, addr + 1) as u16) << 8 | (byte(&engine, addr) as u16);
    assert_eq!(val, 16 * 12);
    let val2 = (byte(&engine, addr + 3) as u16) << 8 | (byte(&engine, addr + 2) as u16);
    assert_eq!(val2, 320u16);
}

#[test]
fn numeric_token_parentheses_and_unary() {
    let engine = load(".L_x:\n.hword (16 * 2)\n.hword -320b\n");
    let addr = *engine.computer.memory_labels.get(".L_x").expect("label");
    let val = (byte(&engine, addr + 1) as u16) << 8 | (byte(&engine, addr) as u16);
    assert_eq!(val, 32);
    let val2 = (byte(&engine, addr + 3) as u16) << 8 | (byte(&engine, addr + 2) as u16);
    assert_eq!(val2, (-(320i32) as i16) as u16);
}

#[test]
fn long_and_quad_store_little_endian_bytes() {
    let engine = load(".L_w:\n.long 0x11223344\n.quad 0x0102030405060708\n");
    let addr = *engine.computer.memory_labels.get(".L_w").expect("label");
    assert_eq!(byte(&engine, addr), 0x44);
    assert_eq!(byte(&engine, addr + 1), 0x33);
    assert_eq!(byte(&engine, addr + 2), 0x22);
    assert_eq!(byte(&engine, addr + 3), 0x11);
    let qb: Vec<u8> = (0..8).map(|i| byte(&engine, addr + 4 + i)).collect();
    assert_eq!(qb, vec![0x08, 0x07, 0x06, 0x05, 0x04, 0x03, 0x02, 0x01]);
}

#[test]
fn forward_label_long_resolves_to_label_minus_offset() {
    let mut engine = load(".L_a:\n.byte 0x11\n.long .L_b - 4\n.L_b:\n.byte 0x22\n");
    run_plain(&mut engine);
    let a = *engine.computer.memory_labels.get(".L_a").expect("label a");
    let long_addr = a + 1;
    let val = (byte(&engine, long_addr + 3) as u32) << 24
        | (byte(&engine, long_addr + 2) as u32) << 16
        | (byte(&engine, long_addr + 1) as u32) << 8
        | (byte(&engine, long_addr) as u32);
    assert_eq!(val, 5u32);
}

#[test]
fn label_minus_label_emits_difference() {
    let engine = load(".L_a:\n.byte 0x00\n.L_b:\n.byte 0x00\n.long .L_b - .L_a\n");
    let a = *engine.computer.memory_labels.get(".L_a").expect("label a");
    let b = *engine.computer.memory_labels.get(".L_b").expect("label b");
    let long_addr = b + 1;
    assert!(b > a);
    let val = (byte(&engine, long_addr + 3) as u32) << 24
        | (byte(&engine, long_addr + 2) as u32) << 16
        | (byte(&engine, long_addr + 1) as u32) << 8
        | (byte(&engine, long_addr) as u32);
    assert_eq!(val, 1u32);
}

#[test]
fn label_diff_resolves_to_concrete() {
    let engine = load(".L_a:\n.byte 0x01\n.L_b:\n.byte 0x02\n.long .L_b - .L_a\n");
    let a = *engine.computer.memory_labels.get(".L_a").unwrap();
    let b = *engine.computer.memory_labels.get(".L_b").unwrap();
    let long_addr = b + 1;
    let val = (byte(&engine, long_addr + 3) as u32) << 24
        | (byte(&engine, long_addr + 2) as u32) << 16
        | (byte(&engine, long_addr + 1) as u32) << 8
        | (byte(&engine, long_addr) as u32);
    assert_eq!(val, (b - a) as u32);
}

#[test]
fn parse_label_minus_number_with_parentheses_falls_back() {
    let engine = load(".L_a:\n.byte 0x01\n.long (.L_b) - 4\n.L_b:\n.byte 0x02\n");
    let a = *engine.computer.memory_labels.get(".L_a").expect("label a");
    let b = *engine.computer.memory_labels.get(".L_b").expect("label b");
    assert!(b > a);
}

#[test]
fn unresolved_label_records_relocation() {
    let mut engine = load(".quad .L_undef + 4\n");
    let rels = engine.take_relocations();
    assert!(rels.len() >= 1);
    let abstracts = rels[0].expr.get_abstracts();
    assert!(abstracts.iter().any(|s| s.contains(".L_undef")));
    // the quad's bytes are zero
    for i in 0..8 {
        assert_eq!(byte(&engine, 4 + i), 0);
    }
}

#[test]
fn export_relocations_contains_label() {
    let mut engine = load(".quad .L_my_label + 8\n");
    let rels = engine.take_relocations();
    assert!(rels.len() >= 1);
    let engine = load(".quad .L_my_label + 8\n");
    let json = engine.export_relocations_json();
    assert!(json.contains(".L_my_label"));
    let lines = engine.list_relocations();
    assert_eq!(lines.len(), 1);
    assert!(lines[0].starts_with("addr=4 size=8 expr="));
}

#[test]
fn export_linker_relocs_has_symbol() {
    let engine = load(".quad .L_symbol + 4\n");
    let s = engine.computer.export_linker_relocs_json();
    assert!(s.contains(".L_symbol"));
    assert!(s.contains("SYM_ADD") || s.contains("EXPR") || s.contains("DIFF"));
}

#[test]
fn rodata_label_and_bytes_parsed() {
    let engine = load(".section .rodata\n.rodata_label:\n.byte 0x11, 0x22, 0x33\n");
    assert!(engine.computer.memory_labels.contains_key(".rodata_label"));
    let addr = *engine.computer.memory_labels.get(".rodata_label").expect("label addr");
    let b0 = engine.computer.memory.get("memory").expect("memory region missing").get(addr).expect("byte0");
    assert_eq!(b0.kind, RegisterKind::Immediate);
    assert_eq!(b0.offset as i64, 0x11);
}

#[test]
fn string_directive_handles_commas_and_escapes() {
    let engine = load(".L_s:\n.asciz \"Hello, world\\\"!\"\n");
    let addr = *engine.computer.memory_labels.get(".L_s").expect("label");
    let mem = engine.computer.memory.get("memory").expect("memory region missing");
    let mut read = Vec::new();
    let mut a = addr;
    loop {
        if let Some(rv) = mem.get(a) {
            if rv.kind == RegisterKind::Immediate {
                let b = rv.offset as u8;
                if b == 0 {
                    break;
                }
                read.push(b);
            } else {
                break;
            }
        } else {
            break;
        }
        a += 1;
    }
    let s = String::from_utf8(read).expect("utf8");
    assert_eq!(s, "Hello, world\"!");
}

#[test]
fn dump_memory_labels_lists_in_order() {
    let engine = load(".L_a:\n.byte 1\n.L_b:\n.byte 2\n");
    assert_eq!(engine.dump_memory_labels(), vec![".L_a -> 4".to_string(), ".L_b -> 5".to_string()]);
}

#[test]
fn overflowing_data_becomes_an_expression() {
    // a token with an inner minus reads as label arithmetic
    let mut e1 = load(".quad -(0-9223372036854775807-1)\n");
    assert_eq!(e1.take_relocations().len(), 1);
    // an overflowing product is no number: it is kept as an expression
    let mut engine = load(".quad 0x7fffffffffffffff * 2\n");
    assert_eq!(engine.take_relocations().len(), 1);
    let ok = vec![".quad 0x3fffffffffffffff * 2".to_string()];
    assert!(ExecutionEngineX86::from_asm_lines_checked(&ok).is_some());
}

#[test]
fn faulting_files_are_refused() {
    // a displacement sum leaving i64
    let lines = vec!["mov rax, [rbx + 9223372036854775807 + 1]".to_string()];
    assert!(ExecutionEngineX86::from_asm_lines_checked(&lines).is_none());
    // a label expression whose value leaves i64 once the label is known
    let lines2 = vec![".L_a:".to_string(), ".quad .L_a + 9223372036854775807".to_string()];
    assert!(ExecutionEngineX86::from_asm_lines_checked(&lines2).is_none());
    // within range both load
    let lines3 = vec![".L_a:".to_string(), ".quad .L_a + 9223372036854775800".to_string()];
    assert!(ExecutionEngineX86::from_asm_lines_checked(&lines3).is_some());
}
