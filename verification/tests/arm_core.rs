use bums::arm::{shift_imm, Operand, ShiftType, ARMCORTEXA};
use bums::common::{AbstractExpression, FlagValue, RegisterKind, RegisterValue};

fn reg(n: &str) -> Operand {
    Operand::Register(n.to_string())
}

fn core_with(values: Vec<(&str, RegisterKind, Option<AbstractExpression>, i64)>) -> ARMCORTEXA {
    let mut c = ARMCORTEXA::new();
    for (n, k, b, o) in values {
        c.set_register(&reg(n), k, b, o);
    }
    c
}

fn flag_bool(f: &Option<FlagValue>) -> Option<bool> {
    match f {
        Some(FlagValue::Real(b)) => Some(*b),
        _ => None,
    }
}

fn abs(n: &str) -> Option<AbstractExpression> {
    Some(AbstractExpression::Abstract(n.to_string()))
}

#[test]
fn arm_cmp_of_immediates_sets_real_flags() {
    let mut c = core_with(vec![("x1", RegisterKind::Immediate, None, 3), ("x2", RegisterKind::Immediate, None, 5)]);
    c.cmp(&reg("x1"), &reg("x2"));
    assert_eq!(flag_bool(&c.neg), Some(true));
    assert_eq!(flag_bool(&c.zero), Some(false));
    assert_eq!(flag_bool(&c.carry), Some(false));
    assert_eq!(flag_bool(&c.overflow), Some(false));

    c.cmp(&reg("x2"), &reg("x1"));
    assert_eq!(flag_bool(&c.neg), Some(false));
    assert_eq!(flag_bool(&c.zero), Some(false));
}

#[test]
fn arm_cmp_of_equal_registers_sets_zero() {
    let mut c = core_with(vec![
        ("x1", RegisterKind::RegisterBase, abs("buf"), 8),
        ("x2", RegisterKind::RegisterBase, abs("buf"), 8),
    ]);
    c.cmp(&reg("x1"), &reg("x2"));
    assert_eq!(flag_bool(&c.neg), Some(false));
    assert_eq!(flag_bool(&c.zero), Some(true));
    assert_eq!(flag_bool(&c.carry), Some(false));
    assert_eq!(flag_bool(&c.overflow), Some(false));
}

#[test]
fn arm_cmp_same_base_compares_offsets() {
    let mut c = core_with(vec![
        ("x1", RegisterKind::RegisterBase, abs("buf"), 4),
        ("x2", RegisterKind::RegisterBase, abs("buf"), 16),
    ]);
    c.cmp(&reg("x1"), &reg("x2"));
    assert_eq!(flag_bool(&c.neg), Some(true));
    assert_eq!(flag_bool(&c.zero), Some(false));
}

#[test]
fn arm_cmp_different_bases_gives_symbolic_flags() {
    let mut c = core_with(vec![
        ("x1", RegisterKind::RegisterBase, abs("a"), 0),
        ("x2", RegisterKind::RegisterBase, abs("b"), 0),
    ]);
    c.cmp(&reg("x1"), &reg("x2"));
    match &c.neg {
        Some(FlagValue::Abstract(cmp)) => {
            assert_eq!(cmp.op, "<");
            assert!(matches!(*cmp.right, AbstractExpression::Immediate(0)));
            match &*cmp.left {
                AbstractExpression::Expression(op, l, r) => {
                    assert_eq!(op, "-");
                    assert!(matches!(**l, AbstractExpression::Register(_)));
                    assert!(matches!(**r, AbstractExpression::Register(_)));
                }
                other => panic!("unexpected {:?}", other),
            }
        }
        other => panic!("unexpected {:?}", other),
    }
    match &c.zero {
        Some(FlagValue::Abstract(cmp)) => assert_eq!(cmp.op, "=="),
        other => panic!("unexpected {:?}", other),
    }
    match &c.carry {
        Some(FlagValue::Abstract(cmp)) => assert!(matches!(*cmp.right, AbstractExpression::Immediate(i64::MIN))),
        other => panic!("unexpected {:?}", other),
    }
}

#[test]
fn arm_cmn_of_immediates_adds() {
    let mut c = core_with(vec![("x1", RegisterKind::Immediate, None, 3), ("x2", RegisterKind::Immediate, None, -3)]);
    c.cmn(&reg("x1"), &reg("x2"));
    assert_eq!(flag_bool(&c.zero), Some(true));
    assert_eq!(flag_bool(&c.neg), Some(false));

    let mut c = core_with(vec![("x1", RegisterKind::Immediate, None, -7), ("x2", RegisterKind::Immediate, None, 2)]);
    c.cmn(&reg("x1"), &reg("x2"));
    assert_eq!(flag_bool(&c.zero), Some(false));
    assert_eq!(flag_bool(&c.neg), Some(true));
}

#[test]
fn arm_add_of_immediates() {
    let mut c = core_with(vec![("x1", RegisterKind::Immediate, None, 3), ("x2", RegisterKind::Immediate, None, 5)]);
    c.arithmetic("+", |a, b| a.wrapping_add(b), vec![reg("x0"), reg("x1"), reg("x2")]);
    let r = c.get_register(&reg("x0"));
    assert_eq!(r.kind, RegisterKind::Immediate);
    assert!(r.base.is_none());
    assert_eq!(r.offset, 8);
}

#[test]
fn arm_add_base_and_immediate_keeps_base() {
    let mut c = core_with(vec![
        ("x1", RegisterKind::RegisterBase, abs("buf"), 16),
        ("x2", RegisterKind::Immediate, None, 4),
    ]);
    c.arithmetic("+", |a, b| a.wrapping_add(b), vec![reg("x0"), reg("x1"), reg("x2")]);
    let r = c.get_register(&reg("x0"));
    assert_eq!(r.kind, RegisterKind::RegisterBase);
    assert!(matches!(&r.base, Some(AbstractExpression::Abstract(n)) if n == "buf"));
    assert_eq!(r.offset, 20);
}

#[test]
fn arm_add_two_bases_combines_them() {
    let mut c = core_with(vec![
        ("x1", RegisterKind::RegisterBase, abs("a"), 1),
        ("x2", RegisterKind::RegisterBase, abs("b"), 2),
    ]);
    c.arithmetic("+", |a, b| a.wrapping_add(b), vec![reg("x0"), reg("x1"), reg("x2")]);
    let r = c.get_register(&reg("x0"));
    assert_eq!(r.kind, RegisterKind::RegisterBase);
    match &r.base {
        Some(AbstractExpression::Expression(op, l, rr)) => {
            assert_eq!(op, "+");
            assert!(matches!(&**l, AbstractExpression::Abstract(n) if n == "a"));
            assert!(matches!(&**rr, AbstractExpression::Abstract(n) if n == "b"));
        }
        other => panic!("unexpected {:?}", other),
    }
    assert_eq!(r.offset, 3);
}

#[test]
fn arm_arithmetic_on_numbers_forgets_value() {
    let mut c = core_with(vec![("x1", RegisterKind::Number, None, 7), ("x2", RegisterKind::Number, None, 9)]);
    c.arithmetic("+", |a, b| a.wrapping_add(b), vec![reg("x0"), reg("x1"), reg("x2")]);
    let r = c.get_register(&reg("x0"));
    assert_eq!(r.kind, RegisterKind::Number);
    assert!(r.base.is_none());
    assert_eq!(r.offset, 0);
}

#[test]
fn arm_add_with_shifted_operand() {
    // add x0, x1, x2, lsl #2 with x1 = 3, x2 = 5
    let mut c = core_with(vec![("x1", RegisterKind::Immediate, None, 3), ("x2", RegisterKind::Immediate, None, 5)]);
    c.arithmetic(
        "+",
        |a, b| a.wrapping_add(b),
        vec![reg("x0"), reg("x1"), reg("x2"), Operand::Bitwise(ShiftType::Lsl, 2)],
    );
    let r = c.get_register(&reg("x0"));
    assert_eq!(r.kind, RegisterKind::Immediate);
    assert_eq!(r.offset, 23);
}

#[test]
fn arm_shift_reg_shifts_left() {
    let mut c = core_with(vec![("x1", RegisterKind::Immediate, None, 1)]);
    c.shift_reg(&reg("x0"), &reg("x1"), &Operand::Bitwise(ShiftType::Lsl, 3));
    let r = c.get_register(&reg("x0"));
    assert_eq!(r.offset, 8);
    match &r.base {
        Some(AbstractExpression::Expression(op, l, rr)) => {
            assert_eq!(op, "lsl");
            assert!(matches!(**l, AbstractExpression::Empty));
            assert!(matches!(**rr, AbstractExpression::Immediate(3)));
        }
        other => panic!("unexpected {:?}", other),
    }
    // an immediate third operand shifts left too
    c.shift_reg(&reg("x3"), &reg("x1"), &Operand::Immediate(4));
    assert_eq!(c.get_register(&reg("x3")).offset, 16);
    // any other third operand changes nothing: x4 still reads as its own name
    c.shift_reg(&reg("x4"), &reg("x1"), &reg("x2"));
    let r4 = c.get_register(&reg("x4"));
    assert_eq!(r4.kind, RegisterKind::RegisterBase);
    assert!(matches!(&r4.base, Some(AbstractExpression::Abstract(n)) if n == "x4"));
}

#[test]
fn arm_shift_imm_plain_offset_and_ror() {
    let r = RegisterValue::new(RegisterKind::RegisterBase, abs("p"), 10);
    let s = shift_imm(String::new(), r, 6);
    assert_eq!(s.offset, 16);
    assert!(matches!(&s.base, Some(AbstractExpression::Abstract(n)) if n == "p"));
    let r = RegisterValue::new(RegisterKind::Immediate, None, 64);
    let s = shift_imm("ror".to_string(), r, 3);
    assert_eq!(s.offset, 8);
}
