//! A small model of an AArch64 core: named registers, the NZCV flags, and the
//! arithmetic, shift and compare steps that act on them.
use vstd::prelude::*;
use crate::common::{
    AbstractComparison, AbstractExpression, CmpModel, ExprModel, FlagModel, FlagValue, RegModel,
    RegisterKind, RegisterValue, clone_expr, clone_rv, generate_expression, opt_expr_eq,
    opt_expr_view, rv_eq, rv_new_model, str_is, unknown_byte,
};
use crate::strmap::StrMap;
use crate::text::fits_i64;

verus! {

/// Shift or extend applied to the last source operand.
#[derive(Debug)]
pub enum ShiftType {
    Lsl,
    Lsr,
    Asr,
    Ror,
    Uxtw,
    Uxtb,
    Uxth,
    Other(String),
}

/// Vector lane arrangement of a SIMD operand.
#[derive(Debug, Clone, Copy, PartialEq, Eq, Structural)]
pub enum Arrangement {
    B8,
    B16,
    H4,
    H8,
    S2,
    S4,
    D1,
    D2,
    B,
    H,
    S,
    D,
}

/// An operand of an AArch64 instruction.
#[derive(Debug)]
pub enum Operand {
    Register(String),
    Immediate(i64),
    Bitwise(ShiftType, i64),
    Label(String),
    Other(String),
}

/// What executing one instruction asks of the engine.
#[derive(Debug)]
pub enum ExecuteReturnType {
    Next,
    JumpLabel(String),
    JumpAddress(u128),
    ConditionalJumpLabel(AbstractComparison, String),
    ConditionalJumpAddress(AbstractComparison, u128),
    Select(AbstractComparison, Operand, RegisterValue, RegisterValue),
}

/// The mnemonic of a shift type.
pub open spec fn shift_name(t: ShiftType) -> Seq<char> {
    match t {
        ShiftType::Lsl => "lsl"@,
        ShiftType::Lsr => "lsr"@,
        ShiftType::Asr => "asr"@,
        ShiftType::Ror => "ror"@,
        ShiftType::Uxtw => "uxtw"@,
        ShiftType::Uxtb => "uxtb"@,
        ShiftType::Uxth => "uxth"@,
        ShiftType::Other(s) => s@,
    }
}

pub fn shift_name_exec(t: &ShiftType) -> (r: String)
    ensures
        r@ == shift_name(*t),
{
    match t {
        ShiftType::Lsl => String::from_str("lsl"),
        ShiftType::Lsr => String::from_str("lsr"),
        ShiftType::Asr => String::from_str("asr"),
        ShiftType::Ror => String::from_str("ror"),
        ShiftType::Uxtw => String::from_str("uxtw"),
        ShiftType::Uxtb => String::from_str("uxtb"),
        ShiftType::Uxth => String::from_str("uxth"),
        ShiftType::Other(s) => s.clone(),
    }
}

/// The shift operations `shift_imm` knows.
pub open spec fn shift_supported(op: Seq<char>) -> bool {
    op == "lsl"@ || op == "lsr"@ || op == "ror"@ || op == ""@ || op == "uxtw"@
}

/// The inputs on which `shift_imm` runs without a fault: a known operation, a
/// shift amount below 64 for real shifts, and no overflow for a plain offset.
pub open spec fn shift_ok(op: Seq<char>, r: RegModel, shift: i64) -> bool {
    &&& shift_supported(op)
    &&& (op == "lsl"@ || op == "lsr"@ || op == "ror"@) ==> 0 <= shift < 64
    &&& op == ""@ ==> fits_i64(r.offset + shift)
}

pub open spec fn base_or_empty(b: Option<ExprModel>) -> ExprModel {
    match b {
        Some(e) => e,
        None => ExprModel::Empty,
    }
}

/// Model of `shift_imm`.
pub open spec fn shift_model(op: Seq<char>, r: RegModel, shift: i64) -> RegModel {
    if op == "lsl"@ || op == "lsr"@ || op == "ror"@ {
        RegModel {
            kind: r.kind,
            base: Some(
                ExprModel::Expression(
                    op,
                    Box::new(base_or_empty(r.base)),
                    Box::new(ExprModel::Immediate(shift)),
                ),
            ),
            offset: if op == "ror"@ {
                r.offset >> (shift as u32)
            } else {
                r.offset << (shift as u32)
            },
            known_mask: r.known_mask,
            known_value: r.known_value,
        }
    } else if op == ""@ {
        RegModel { offset: (r.offset + shift) as i64, ..r }
    } else {
        r
    }
}

/// Applies a shift (or a plain offset, or an extend) to a register value,
/// keeping its known bits.
pub fn shift_imm(op: String, register: RegisterValue, shift: i64) -> (r: RegisterValue)
    requires
        shift_ok(op@, register@, shift),
    ensures
        r@ == shift_model(op@, register@, shift),
{
    let known_mask = register.known_mask;
    let known_value = register.known_value;
    if str_is(&op, "lsl") || str_is(&op, "lsr") || str_is(&op, "ror") {
        let s: u32 = shift as u32;
        let new_offset = if str_is(&op, "ror") {
            register.offset >> s
        } else {
            register.offset << s
        };
        let old_base = match register.base {
            Some(b) => b,
            None => AbstractExpression::Empty,
        };
        let base = Some(generate_expression(op.as_str(), old_base, AbstractExpression::Immediate(shift)));
        let mut rv = RegisterValue::new(register.kind, base, new_offset);
        rv.known_mask = known_mask;
        rv.known_value = known_value;
        rv
    } else if str_is(&op, "") {
        let new_offset = register.offset + shift;
        let mut rv = RegisterValue::new(register.kind, register.base, new_offset);
        rv.known_mask = known_mask;
        rv.known_value = known_value;
        rv
    } else {
        let mut rv = RegisterValue::new(register.kind, register.base, register.offset);
        rv.known_mask = known_mask;
        rv.known_value = known_value;
        rv
    }
}

/// Model of the core: register contents by name and the four flags.
pub struct ArmModel {
    pub registers: Map<Seq<char>, RegModel>,
    pub neg: Option<FlagModel>,
    pub zero: Option<FlagModel>,
    pub carry: Option<FlagModel>,
    pub overflow: Option<FlagModel>,
}

pub open spec fn opt_flag_view(f: Option<FlagValue>) -> Option<FlagModel> {
    match f {
        Some(v) => Some(v@),
        None => None,
    }
}

/// An AArch64 core: general purpose registers by name and the NZCV flags.
pub struct ARMCORTEXA {
    registers: StrMap<RegisterValue>,
    pub neg: Option<FlagValue>,
    pub zero: Option<FlagValue>,
    pub carry: Option<FlagValue>,
    pub overflow: Option<FlagValue>,
}

/// What reading an operand gives: a register's value (a register never
/// written holds the abstract value named after it), an immediate, or an
/// unknown number.
pub open spec fn arm_read(regs: Map<Seq<char>, RegModel>, op: Operand) -> RegModel {
    match op {
        Operand::Register(n) => if regs.contains_key(n@) {
            regs[n@]
        } else {
            rv_new_model(RegisterKind::RegisterBase, Some(ExprModel::Abstract(n@)), 0)
        },
        Operand::Immediate(v) => rv_new_model(RegisterKind::Immediate, None, v),
        _ => unknown_byte(),
    }
}

/// Writing `v` to an operand: only a register operand is changed.
pub open spec fn arm_write(m: ArmModel, op: Operand, v: RegModel) -> ArmModel {
    match op {
        Operand::Register(n) => ArmModel { registers: m.registers.insert(n@, v), ..m },
        _ => m,
    }
}

/// The four flags set to the given values.
pub open spec fn with_flags(m: ArmModel, n: FlagModel, z: FlagModel, c: FlagModel, v: FlagModel) -> ArmModel {
    ArmModel { neg: Some(n), zero: Some(z), carry: Some(c), overflow: Some(v), ..m }
}

impl ARMCORTEXA {
    pub closed spec fn view(&self) -> ArmModel {
        ArmModel {
            registers: self.registers@,
            neg: opt_flag_view(self.neg),
            zero: opt_flag_view(self.zero),
            carry: opt_flag_view(self.carry),
            overflow: opt_flag_view(self.overflow),
        }
    }

    /// A core with no register written and no flag set.
    pub fn new() -> (r: Self)
        ensures
            r@ == (ArmModel {
                registers: Map::empty(),
                neg: None,
                zero: None,
                carry: None,
                overflow: None,
            }),
    {
        ARMCORTEXA { registers: StrMap::new(), neg: None, zero: None, carry: None, overflow: None }
    }

    /// The value an operand reads as.
    pub fn get_register(&self, op: &Operand) -> (r: RegisterValue)
        ensures
            r@ == arm_read(self@.registers, *op),
    {
        match op {
            Operand::Register(n) => match self.registers.get(n.as_str()) {
                Some(v) => clone_rv(v),
                None => RegisterValue::new_empty(n.as_str()),
            },
            Operand::Immediate(v) => RegisterValue::new(RegisterKind::Immediate, None, *v),
            _ => RegisterValue::new(RegisterKind::Number, None, 0),
        }
    }

    /// Writes a new value to a register operand; other operands are left alone.
    pub fn set_register(
        &mut self,
        op: &Operand,
        kind: RegisterKind,
        base: Option<AbstractExpression>,
        offset: i64,
    )
        ensures
            final(self)@ == arm_write(old(self)@, *op, rv_new_model(kind, opt_expr_view(base), offset)),
    {
        match op {
            Operand::Register(n) => {
                let v = RegisterValue::new(kind, base, offset);
                self.registers.insert(n.clone(), v);
            },
            _ => {},
        }
    }
}

/// `a op b` when both are present; the present one, or none, otherwise.
pub open spec fn combine_bases(op: Seq<char>, a: Option<ExprModel>, b: Option<ExprModel>) -> Option<ExprModel> {
    match (a, b) {
        (Some(x), Some(y)) => Some(ExprModel::Expression(op, Box::new(x), Box::new(y))),
        (Some(x), None) => Some(x),
        (None, Some(y)) => Some(y),
        (None, None) => None,
    }
}

/// Whether `arithmetic` applies its operation to the two offsets: not when
/// the result is an unknown number.
pub open spec fn arith_uses_op(r1: RegModel, r2: RegModel) -> bool {
    if r1.kind == r2.kind {
        r1.kind != RegisterKind::Number
    } else {
        r1.kind == RegisterKind::Immediate || r2.kind == RegisterKind::Immediate
    }
}

/// The (kind, base, offset) `arithmetic` writes, given the operation's result `v`.
pub open spec fn arith_result(op: Seq<char>, r1: RegModel, r2: RegModel, v: i64) -> (RegisterKind, Option<ExprModel>, i64) {
    if r1.kind == r2.kind {
        match r1.kind {
            RegisterKind::RegisterBase => (RegisterKind::RegisterBase, combine_bases(op, r1.base, r2.base), v),
            RegisterKind::Number => (RegisterKind::Number, None, 0),
            RegisterKind::Immediate => (RegisterKind::Immediate, None, v),
        }
    } else if r1.kind == RegisterKind::Immediate {
        (r2.kind, r2.base, v)
    } else if r2.kind == RegisterKind::Immediate {
        (r1.kind, r1.base, v)
    } else {
        (RegisterKind::Number, None, 0)
    }
}

/// The shifted second source of `arithmetic`, when a fourth operand asks for one.
pub open spec fn arith_second(regs: Map<Seq<char>, RegModel>, operands: Seq<Operand>) -> RegModel {
    let r2 = arm_read(regs, operands[2]);
    if operands.len() > 3 {
        match operands[3] {
            Operand::Bitwise(t, n) => shift_model(shift_name(t), r2, n),
            _ => r2,
        }
    } else {
        r2
    }
}

/// The inputs on which `arithmetic` runs: three operands, and a shift it knows.
pub open spec fn arith_ok(regs: Map<Seq<char>, RegModel>, operands: Seq<Operand>) -> bool {
    &&& operands.len() >= 3
    &&& operands.len() > 3 ==> match operands[3] {
        Operand::Bitwise(t, n) => shift_ok(shift_name(t), arm_read(regs, operands[2]), n),
        _ => true,
    }
}

/// The expression `r1 op r2` over boxed register values.
pub open spec fn reg_pair(op: Seq<char>, r1: RegModel, r2: RegModel) -> ExprModel {
    ExprModel::Expression(op, Box::new(ExprModel::Register(Box::new(r1))), Box::new(ExprModel::Register(Box::new(r2))))
}

pub open spec fn abs_cmp(op: Seq<char>, e: ExprModel, k: i64) -> FlagModel {
    FlagModel::Abstract(CmpModel { op, left: e, right: ExprModel::Immediate(k) })
}

/// Whether `cmp` subtracts the two offsets.
pub open spec fn cmp_subtracts(r1: RegModel, r2: RegModel) -> bool {
    &&& r1 != r2
    &&& r1.kind == r2.kind
    &&& (r1.kind == RegisterKind::Immediate || (r1.kind == RegisterKind::RegisterBase && r1.base == r2.base))
    &&& r2.offset > r1.offset
}

/// Model of `cmp`: the flags of `r1 - r2`.
pub open spec fn cmp_model(m: ArmModel, r1: RegModel, r2: RegModel) -> ArmModel {
    let known = (r1.kind == RegisterKind::Immediate || (r1.kind == RegisterKind::RegisterBase && r1.base == r2.base));
    let cv = r2.offset > r1.offset && r1.offset - r2.offset > 0;
    let e = reg_pair("-"@, r1, r2);
    if r1 == r2 {
        with_flags(m, FlagModel::Real(false), FlagModel::Real(true), FlagModel::Real(false), FlagModel::Real(false))
    } else if r1.kind == r2.kind && known {
        with_flags(m, FlagModel::Real(r1.offset < r2.offset), FlagModel::Real(r1.offset == r2.offset),
            FlagModel::Real(cv), FlagModel::Real(cv))
    } else if (r1.kind == r2.kind && r1.kind == RegisterKind::RegisterBase) || (r1.kind != r2.kind && (
        r1.kind == RegisterKind::RegisterBase || r2.kind == RegisterKind::RegisterBase)) {
        with_flags(m, abs_cmp("<"@, e, 0), abs_cmp("=="@, e, 0), abs_cmp("<"@, e, i64::MIN),
            abs_cmp("<"@, e, i64::MIN))
    } else {
        m
    }
}

/// Whether `cmn` adds the two offsets.
pub open spec fn cmn_adds(r1: RegModel, r2: RegModel) -> bool {
    &&& r1 != r2
    &&& r1.kind == r2.kind
    &&& (r1.kind == RegisterKind::Immediate || (r1.kind == RegisterKind::RegisterBase && r1.base == r2.base))
}

/// Model of `cmn`: the flags of `r1 + r2`.
pub open spec fn cmn_model(m: ArmModel, r1: RegModel, r2: RegModel) -> ArmModel {
    let known = (r1.kind == RegisterKind::Immediate || (r1.kind == RegisterKind::RegisterBase && r1.base == r2.base));
    let sum = r1.offset + r2.offset;
    let e = reg_pair("+"@, r1, r2);
    if r1 == r2 {
        with_flags(m, FlagModel::Real(false), FlagModel::Real(true), FlagModel::Real(false), FlagModel::Real(false))
    } else if r1.kind == r2.kind && known {
        with_flags(m, FlagModel::Real(sum < 0), FlagModel::Real(sum == 0),
            FlagModel::Real(sum > i64::MAX), FlagModel::Real(sum > i64::MAX))
    } else if (r1.kind == r2.kind && r1.kind == RegisterKind::RegisterBase) || (r1.kind != r2.kind && (
        r1.kind == RegisterKind::RegisterBase || r2.kind == RegisterKind::RegisterBase)) {
        with_flags(m, abs_cmp("<"@, e, 0), abs_cmp("=="@, e, 0), abs_cmp(">"@, e, i64::MAX),
            abs_cmp(">"@, e, i64::MAX))
    } else {
        m
    }
}

fn combine_base_exec(op: &str, a: Option<AbstractExpression>, b: Option<AbstractExpression>) -> (r: Option<AbstractExpression>)
    ensures
        opt_expr_view(r) == combine_bases(op@, opt_expr_view(a), opt_expr_view(b)),
{
    match (a, b) {
        (Some(x), Some(y)) => Some(generate_expression(op, x, y)),
        (Some(x), None) => Some(x),
        (None, Some(y)) => Some(y),
        (None, None) => None,
    }
}

fn reg_pair_exec(op: &str, r1: &RegisterValue, r2: &RegisterValue) -> (r: AbstractExpression)
    ensures
        r@ == reg_pair(op@, r1@, r2@),
{
    generate_expression(
        op,
        AbstractExpression::Register(Box::new(clone_rv(r1))),
        AbstractExpression::Register(Box::new(clone_rv(r2))),
    )
}

fn abs_flag(op: &str, e: &AbstractExpression, k: i64) -> (r: Option<FlagValue>)
    ensures
        opt_flag_view(r) == Some(abs_cmp(op@, e@, k)),
{
    Some(FlagValue::Abstract(AbstractComparison::new(op, clone_expr(e), AbstractExpression::Immediate(k))))
}

impl ARMCORTEXA {
    /// `reg0 = reg1 op reg2`, the second source shifted first when a fourth
    /// operand asks for it. Bases combine symbolically under `op_string`;
    /// offsets combine through `op`.
    pub fn arithmetic(&mut self, op_string: &str, op: impl Fn(i64, i64) -> i64, operands: Vec<Operand>)
        requires
            arith_ok(old(self)@.registers, operands@),
            forall|a: i64, b: i64| op.requires((a, b)),
        ensures
            ({
                let r1 = arm_read(old(self)@.registers, operands@[1]);
                let r2 = arith_second(old(self)@.registers, operands@);
                if arith_uses_op(r1, r2) {
                    exists|v: i64| #[trigger] op.ensures((r1.offset, r2.offset), v) && {
                        let (k, b, o) = arith_result(op_string@, r1, r2, v);
                        final(self)@ == arm_write(old(self)@, operands@[0], rv_new_model(k, b, o))
                    }
                } else {
                    final(self)@ == arm_write(old(self)@, operands@[0], rv_new_model(RegisterKind::Number, None, 0))
                }
            }),
    {
        let r1 = self.get_register(&operands[1]);
        let mut r2 = self.get_register(&operands[2]);
        if operands.len() > 3 {
            if let Operand::Bitwise(t, num) = &operands[3] {
                let name = shift_name_exec(t);
                r2 = shift_imm(name, r2, *num);
            }
        }
        let ghost g1 = r1@;
        let ghost g2 = r2@;
        assert(g2 == arith_second(old(self)@.registers, operands@));
        if r1.kind == r2.kind {
            match r1.kind {
                RegisterKind::RegisterBase => {
                    let v = op(r1.offset, r2.offset);
                    let base = combine_base_exec(op_string, r1.base, r2.base);
                    self.set_register(&operands[0], RegisterKind::RegisterBase, base, v);
                    assert(op.ensures((g1.offset, g2.offset), v));
                },
                RegisterKind::Number => {
                    self.set_register(&operands[0], RegisterKind::Number, None, 0);
                },
                RegisterKind::Immediate => {
                    let v = op(r1.offset, r2.offset);
                    self.set_register(&operands[0], RegisterKind::Immediate, None, v);
                    assert(op.ensures((g1.offset, g2.offset), v));
                },
            }
        } else if r1.kind == RegisterKind::Immediate {
            let v = op(r1.offset, r2.offset);
            self.set_register(&operands[0], r2.kind, r2.base, v);
            assert(op.ensures((g1.offset, g2.offset), v));
        } else if r2.kind == RegisterKind::Immediate {
            let v = op(r1.offset, r2.offset);
            self.set_register(&operands[0], r1.kind, r1.base, v);
            assert(op.ensures((g1.offset, g2.offset), v));
        } else {
            self.set_register(&operands[0], RegisterKind::Number, None, 0);
        }
    }

    /// `reg1 = reg2` shifted as `reg3` says (an immediate shifts left).
    /// Any other third operand leaves the core unchanged.
    pub fn shift_reg(&mut self, reg1: &Operand, reg2: &Operand, reg3: &Operand)
        requires
            match *reg3 {
                Operand::Bitwise(t, n) => shift_ok(shift_name(t), arm_read(old(self)@.registers, *reg2), n),
                Operand::Immediate(n) => shift_ok("lsl"@, arm_read(old(self)@.registers, *reg2), n),
                _ => true,
            },
        ensures
            ({
                let r2 = arm_read(old(self)@.registers, *reg2);
                match *reg3 {
                    Operand::Bitwise(t, n) => {
                        let s = shift_model(shift_name(t), r2, n);
                        final(self)@ == arm_write(old(self)@, *reg1, rv_new_model(s.kind, s.base, s.offset))
                    },
                    Operand::Immediate(n) => {
                        let s = shift_model("lsl"@, r2, n);
                        final(self)@ == arm_write(old(self)@, *reg1, rv_new_model(s.kind, s.base, s.offset))
                    },
                    _ => final(self)@ == old(self)@,
                }
            }),
    {
        let r2 = self.get_register(reg2);
        let shifted = match reg3 {
            Operand::Bitwise(t, shift) => shift_imm(shift_name_exec(t), r2, *shift),
            Operand::Immediate(shift) => shift_imm(String::from_str("lsl"), r2, *shift),
            _ => {
                return;
            },
        };
        self.set_register(reg1, shifted.kind, shifted.base, shifted.offset);
    }

    /// Sets the flags as for `reg1 - reg2`.
    pub fn cmp(&mut self, reg1: &Operand, reg2: &Operand)
        requires
            cmp_subtracts(arm_read(old(self)@.registers, *reg1), arm_read(old(self)@.registers, *reg2))
                ==> fits_i64(arm_read(old(self)@.registers, *reg1).offset - arm_read(old(self)@.registers, *reg2).offset),
        ensures
            final(self)@ == cmp_model(old(self)@, arm_read(old(self)@.registers, *reg1), arm_read(old(self)@.registers, *reg2)),
    {
        let r1 = self.get_register(reg1);
        let r2 = self.get_register(reg2);
        if rv_eq(&r1, &r2) {
            self.neg = Some(FlagValue::Real(false));
            self.zero = Some(FlagValue::Real(true));
            self.carry = Some(FlagValue::Real(false));
            self.overflow = Some(FlagValue::Real(false));
            return;
        }
        let same_base = opt_expr_eq(&r1.base, &r2.base);
        if r1.kind == r2.kind && (r1.kind == RegisterKind::Immediate || (r1.kind == RegisterKind::RegisterBase && same_base)) {
            let cv = r2.offset > r1.offset && r1.offset - r2.offset > 0;
            self.neg = Some(FlagValue::Real(r1.offset < r2.offset));
            self.zero = Some(FlagValue::Real(r1.offset == r2.offset));
            self.carry = Some(FlagValue::Real(cv));
            self.overflow = Some(FlagValue::Real(cv));
        } else if (r1.kind == r2.kind && r1.kind == RegisterKind::RegisterBase) || (r1.kind != r2.kind && (
            r1.kind == RegisterKind::RegisterBase || r2.kind == RegisterKind::RegisterBase)) {
            let e = reg_pair_exec("-", &r1, &r2);
            self.neg = abs_flag("<", &e, 0);
            self.zero = abs_flag("==", &e, 0);
            self.carry = abs_flag("<", &e, i64::MIN);
            self.overflow = abs_flag("<", &e, i64::MIN);
        }
    }

    /// Sets the flags as for `reg1 + reg2`.
    pub fn cmn(&mut self, reg1: &Operand, reg2: &Operand)
        requires
            cmn_adds(arm_read(old(self)@.registers, *reg1), arm_read(old(self)@.registers, *reg2))
                ==> fits_i64(arm_read(old(self)@.registers, *reg1).offset + arm_read(old(self)@.registers, *reg2).offset),
        ensures
            final(self)@ == cmn_model(old(self)@, arm_read(old(self)@.registers, *reg1), arm_read(old(self)@.registers, *reg2)),
    {
        let r1 = self.get_register(reg1);
        let r2 = self.get_register(reg2);
        if rv_eq(&r1, &r2) {
            self.neg = Some(FlagValue::Real(false));
            self.zero = Some(FlagValue::Real(true));
            self.carry = Some(FlagValue::Real(false));
            self.overflow = Some(FlagValue::Real(false));
            return;
        }
        let same_base = opt_expr_eq(&r1.base, &r2.base);
        if r1.kind == r2.kind && (r1.kind == RegisterKind::Immediate || (r1.kind == RegisterKind::RegisterBase && same_base)) {
            let sum = r1.offset + r2.offset;
            let wide = (r2.offset as i128) + (r1.offset as i128);
            let overflowed = wide > (i64::MAX as i128);
            self.neg = Some(FlagValue::Real(sum < 0));
            self.zero = Some(FlagValue::Real(sum == 0));
            self.carry = Some(FlagValue::Real(overflowed));
            self.overflow = Some(FlagValue::Real(overflowed));
        } else if (r1.kind == r2.kind && r1.kind == RegisterKind::RegisterBase) || (r1.kind != r2.kind && (
            r1.kind == RegisterKind::RegisterBase || r2.kind == RegisterKind::RegisterBase)) {
            let e = reg_pair_exec("+", &r1, &r2);
            self.neg = abs_flag("<", &e, 0);
            self.zero = abs_flag("==", &e, 0);
            self.carry = abs_flag(">", &e, i64::MAX);
            self.overflow = abs_flag(">", &e, i64::MAX);
        }
    }
}

} // verus!
