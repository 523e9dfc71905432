use bums::arm::Arrangement;
use bums::common::{AbstractComparison, AbstractExpression, FlagValue, RegionType, RegisterKind, RegisterValue};
use bums::harness::{binary_to_abstract_expression, unary_to_abstract_expression, BinOpKind, ExprShape, UnOpKind};
use bums::simd::SimdRegister;
use bums::access::AccessPlan;
use bums::computer::X86Computer;
use bums::multiversion::{select_step, SelectAction};

fn abs(n: &str) -> AbstractExpression {
    AbstractExpression::Abstract(n.to_string())
}

#[test]
fn simd_new_is_zero_and_baseless() {
    let r = SimdRegister::new("v0");
    for i in 0..16 {
        let (b, o) = r.get_byte(i);
        assert!(b.is_none());
        assert_eq!(o, 0);
    }
}

#[test]
fn simd_lane_writes_read_back() {
    let mut r = SimdRegister::new("v1");
    r.set_byte(3, Some(abs("p")), 0xab);
    let (b, o) = r.get_byte(3);
    assert!(matches!(b, Some(AbstractExpression::Abstract(ref n)) if n == "p"));
    assert_eq!(o, 0xab);

    r.set_halfword(2, [None, None], [0x12, 0x34]);
    let (_, hw) = r.get_halfword(2);
    assert_eq!(hw, [0x12, 0x34]);
    // the halfword at lane 2 covers bytes 4 and 5
    assert_eq!(r.get_byte(4).1, 0x12);
    assert_eq!(r.get_byte(5).1, 0x34);
    // byte 3 is untouched
    assert_eq!(r.get_byte(3).1, 0xab);

    r.set_word(3, [None, None, None, None], [1, 2, 3, 4]);
    assert_eq!(r.get_word(3).1, [1, 2, 3, 4]);
    assert_eq!(r.get_byte(12).1, 1);

    r.set_double(0, [None, None, None, None, None, None, None, None], [9, 8, 7, 6, 5, 4, 3, 2]);
    assert_eq!(r.get_double(0).1, [9, 8, 7, 6, 5, 4, 3, 2]);
    assert_eq!(r.get_halfword(0).1, [9, 8]);
}

#[test]
fn simd_broadcast_of_doubles_reads_as_scalar() {
    let mut r = SimdRegister::new("v2");
    r.set_from_register(Arrangement::D2, RegisterKind::Immediate, None, 0x0102_0304_0506_0708);
    for lane in 0..2 {
        assert_eq!(r.get_double(lane).1, [1, 2, 3, 4, 5, 6, 7, 8]);
    }
    let v = r.get_as_register();
    assert_eq!(v.kind, RegisterKind::Immediate);
    assert!(v.base.is_none());
    assert_eq!(v.offset, 0x0102_0304_0506_0708);
    assert_eq!(v.known_mask, 0);
}

#[test]
fn simd_broadcast_of_words_and_bytes() {
    let mut r = SimdRegister::new("v3");
    r.set_from_register(Arrangement::S4, RegisterKind::Number, None, 0x1122_3344);
    assert_eq!(r.get_word(0).1, [0x11, 0x22, 0x33, 0x44]);
    assert_eq!(r.get_word(3).1, [0x11, 0x22, 0x33, 0x44]);
    assert_eq!(r.get_as_register().offset, 0x1122_3344_1122_3344);

    let mut r = SimdRegister::new("v4");
    r.set_from_register(Arrangement::B16, RegisterKind::Number, None, 0x7f);
    for i in 0..16 {
        assert_eq!(r.get_byte(i).1, 0x7f);
    }
}

#[test]
fn simd_byte_broadcast_names_lanes() {
    let mut r = SimdRegister::new("v5");
    r.set_from_register(Arrangement::B16, RegisterKind::RegisterBase, Some(abs("x")), 0);
    match r.get_byte(2).0 {
        Some(AbstractExpression::Expression(op, l, rr)) => {
            assert_eq!(op, "&");
            assert!(matches!(*l, AbstractExpression::Abstract(ref n) if n == "B162"));
            assert!(matches!(*rr, AbstractExpression::Abstract(ref n) if n == "x"));
        }
        other => panic!("unexpected {:?}", other),
    }
    // the last lane keeps its base
    assert!(r.get_byte(15).0.is_none());
    // the scalar read pairs the lane bases into one expression
    assert!(matches!(r.get_as_register().base, Some(AbstractExpression::Expression(ref op, _, _)) if op == ","));
}

#[test]
fn simd_single_word_write_keeps_other_lanes() {
    let mut r = SimdRegister::new("v6");
    r.set_from_register(Arrangement::D2, RegisterKind::Number, None, 0xffff_ffff_ffff_ffff);
    r.set_from_register(Arrangement::S, RegisterKind::Number, None, 0x0a0b_0c0d);
    assert_eq!(r.get_word(0).1, [0x0a, 0x0b, 0x0c, 0x0d]);
    assert_eq!(r.get_word(1).1, [0xff, 0xff, 0xff, 0xff]);
}

#[test]
fn register_value_constructors() {
    let r = RegisterValue::new_imm(-2);
    assert_eq!(r.kind, RegisterKind::Immediate);
    assert_eq!(r.offset, -2);
    assert_eq!(r.known_mask, u64::MAX);
    assert_eq!(r.known_value, (-2i64) as u64);

    let r = RegisterValue::with_known(RegisterKind::Number, None, 5, 0xff, 0x05);
    assert_eq!(r.kind, RegisterKind::Number);
    assert_eq!(r.offset, 5);
    assert_eq!(r.known_mask, 0xff);
    assert_eq!(r.known_value, 0x05);
}

#[test]
fn region_type_names() {
    assert_eq!(RegionType::READ.display_name(), "Read");
    assert_eq!(RegionType::WRITE.display_name(), "Write");
    assert_eq!(RegionType::RW.display_name(), "Read and Write");
}

#[test]
fn flag_value_as_comparison() {
    let t = FlagValue::Real(true).to_abstract_expression();
    assert_eq!(t.op, "==");
    let f = FlagValue::Real(false).to_abstract_expression();
    assert_eq!(f.op, "!=");
    let a = FlagValue::Abstract(AbstractComparison::new("<", abs("a"), AbstractExpression::Immediate(4)));
    let c = a.to_abstract_expression();
    assert_eq!(c.op, "<");
    assert!(matches!(*c.right, AbstractExpression::Immediate(4)));
}

#[test]
fn invariant_operators_become_expressions() {
    let a = ExprShape::Path("len".to_string());
    let b = ExprShape::Int("64".to_string());
    match binary_to_abstract_expression(BinOpKind::Mul, &a, &b) {
        AbstractExpression::Expression(op, l, r) => {
            assert_eq!(op, "*");
            assert!(matches!(*l, AbstractExpression::Abstract(ref n) if n == "len"));
            assert!(matches!(*r, AbstractExpression::Immediate(64)));
        }
        other => panic!("unexpected {:?}", other),
    }
    match unary_to_abstract_expression(UnOpKind::Neg, &a) {
        AbstractExpression::Expression(op, l, r) => {
            assert_eq!(op, "-");
            assert!(matches!(*l, AbstractExpression::Abstract(ref n) if n == "len"));
            assert!(matches!(*r, AbstractExpression::Empty));
        }
        other => panic!("unexpected {:?}", other),
    }
}

#[test]
fn comparison_negated_twice_is_itself() {
    for (op, neg) in [("<", ">="), (">", "<="), ("<=", ">"), (">=", "<"), ("==", "!="), ("!=", "==")] {
        let c = AbstractComparison::new(op, abs("x"), AbstractExpression::Immediate(3));
        let n = c.not();
        assert_eq!(n.op, neg);
        assert_eq!(n.not().op, op);
        assert!(matches!(*n.left, AbstractExpression::Abstract(ref s) if s == "x"));
    }
}

#[test]
fn low_byte_write_keeps_upper_bits() {
    use_computer_low_byte();
}

fn use_computer_low_byte() {
    let mut comp = X86Computer::new();
    comp.set_register_imm("rax", 0x1122334455667788);
    comp.write_register_from_imm("al", 0x99);
    let rax = comp.get_register_value("rax");
    assert!(
        rax.kind == RegisterKind::Number || (rax.kind == RegisterKind::Immediate && rax.offset == 0x1122334455667799)
    );
    assert!(!(rax.kind == RegisterKind::Immediate && rax.offset == 0x99));
    let mut comp = X86Computer::new();
    comp.set_register_imm("rax", 0x1122334455667788);
    comp.write_register_from_value("al", RegisterValue::new_imm(0x99));
    let rax = comp.get_register_value("rax");
    assert!(!(rax.kind == RegisterKind::Immediate && rax.offset == 0x99));
    assert_eq!(comp.get_register_value("al").offset, 0x99);
    // a high byte register makes its register unknown
    let mut comp = X86Computer::new();
    comp.set_register_imm("rbx", 7);
    comp.write_register_from_imm("bh", 1);
    assert_eq!(comp.get_register_value("rbx").kind, RegisterKind::Number);
    // a 16-bit alias keeps the upper bits too
    let mut comp = X86Computer::new();
    comp.set_register_imm("rcx", 0x10000);
    comp.write_register_from_imm("cx", 0x1234);
    let rcx = comp.get_register_value("rcx");
    assert!(!(rcx.kind == RegisterKind::Immediate && rcx.offset == 0x1234));
}

#[test]
fn label_difference_is_diff_record() {
    let mut comp = X86Computer::new();
    comp.add_memory_label("B".to_string(), 8);
    comp.add_relocation(
        0,
        AbstractExpression::Expression("-".to_string(), Box::new(abs("A")), Box::new(abs("B"))),
        4,
    );
    comp.add_relocation(
        4,
        AbstractExpression::Expression("+".to_string(), Box::new(abs("A")), Box::new(AbstractExpression::Immediate(3))),
        4,
    );
    let recs = comp.relocations_to_linker_records();
    assert_eq!(recs[0].kind, "DIFF");
    assert_eq!(recs[0].symbol, None);
    assert_eq!(recs[0].addend, None);
    assert_eq!(recs[1].kind, "SYM_ADD");
    assert_eq!(recs[1].symbol, Some("A".to_string()));
    assert_eq!(recs[1].addend, Some(3));
}

#[test]
fn region_bounds_are_strict() {
    let mut comp = X86Computer::new();
    comp.add_memory_region("buf".to_string(), RegionType::RW, AbstractExpression::Immediate(16));
    for k in [0i64, 15, 16, -1] {
        match comp.mem_safe_access_plan(abs("buf"), k, RegionType::READ) {
            AccessPlan::Check { low, up, .. } => {
                let l = low.last().unwrap();
                let u = up.last().unwrap();
                assert_eq!(l.op, "<");
                assert_eq!(u.op, ">=");
                // with buf at 1000, one bound formula holds exactly when the access is outside
                let fails = holds_at(l) || holds_at(u);
                assert_eq!(fails, k < 0 || k >= 16);
            }
            AccessPlan::Fail(_) => panic!("a named region is checked"),
        }
    }
}

#[test]
fn concrete_address_is_measured_from_data_start() {
    let mut comp = X86Computer::new();
    comp.add_memory_value("memory".to_string(), 4, 0x11);
    match comp.mem_safe_access_plan(AbstractExpression::Immediate(1000), 0, RegionType::READ) {
        AccessPlan::Check { up, .. } => {
            let u = up.last().unwrap();
            assert_eq!(u.op, ">=");
            // 1000 >= 4 + 1 holds, so the access cannot pass
            assert_eq!(u.to_display_string(), "(>= (1000 + 0) (4 + 1))");
        }
        AccessPlan::Fail(_) => panic!("memory exists"),
    }
}

#[test]
fn selection_steps() {
    assert_eq!(select_step(&vec![false, true, true], 0, false, None), SelectAction::Chosen(1));
    assert_eq!(select_step(&vec![false, true, true], 0, true, None), SelectAction::Probe(1));
    assert_eq!(select_step(&vec![false, true, true], 1, true, Some(false)), SelectAction::Probe(2));
    assert_eq!(select_step(&vec![false, true, true], 2, true, Some(true)), SelectAction::Chosen(2));
    assert_eq!(select_step(&vec![false, true, true], 2, true, Some(false)), SelectAction::Chosen(255));
    assert_eq!(select_step(&vec![], 0, false, None), SelectAction::Chosen(255));
}

fn eval_at(e: &AbstractExpression) -> i128 {
    match e {
        AbstractExpression::Immediate(n) => *n as i128,
        AbstractExpression::Abstract(_) => 1000,
        AbstractExpression::Expression(op, a, b) => match op.as_str() {
            "+" => eval_at(a) + eval_at(b),
            "-" => eval_at(a) - eval_at(b),
            _ => panic!("operator"),
        },
        _ => panic!("expression"),
    }
}

fn holds_at(c: &AbstractComparison) -> bool {
    let (l, r) = (eval_at(&c.left), eval_at(&c.right));
    match c.op.as_str() {
        "<" => l < r,
        ">=" => l >= r,
        _ => panic!("op"),
    }
}
