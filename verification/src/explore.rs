//! Running a loaded program path by path: the expressions an instruction
//! reads, one step of a path, the decision at a conditional jump, and the
//! worklist of paths still to run. Satisfiability is asked of the caller:
//! a step that needs it stops and waits for the answers.
use vstd::prelude::*;
use crate::computer::formulas_view;
use crate::access::{AccessPlan, PlanModel, access_ok, access_plan, plus};
use crate::common::{
    AbstractComparison, AbstractExpression, AccessModel, CmpModel, ExprModel, MemoryAccess, RegModel, copy_comparison,
    RegionModel, RegisterKind, RegisterValue, RegionType, clone_expr, generate_expression, resolve,
    provider_regs, push_str_debug, resolve_checked, resolve_fits, rv_new_model, str_debug, str_is, unknown_byte,
};
use crate::computer::{
    X86Computer, X86Model, gp_names, imm_value, is_dword_alias, lemma_gp_names_plain, lanes_view, put_register, read_register, write_imm_model,
    write_value_model,
};
use crate::parser::{InstrModel, OperandModel, X86Instruction, X86Operand, opt_str_view};
use crate::text::{chars_of, ends_with, ends_with_range, push_str, starts_with, starts_with_range, string_from_chars};
use crate::engine::instrs_view;
use crate::strmap::StrMap;
use crate::text::fits_i64;

verus! {

/// `a * b`.
pub open spec fn times(a: ExprModel, b: ExprModel) -> ExprModel {
    ExprModel::Expression("*"@, Box::new(a), Box::new(b))
}

/// The expression a register value stands for: its immediate, its base
/// plus a nonzero offset, or the value itself when it is an unknown number.
pub open spec fn reg_expr(r: RegModel) -> ExprModel {
    match r.kind {
        RegisterKind::Immediate => ExprModel::Immediate(r.offset),
        RegisterKind::RegisterBase => match r.base {
            Some(b) => if r.offset != 0 {
                plus(b, ExprModel::Immediate(r.offset))
            } else {
                b
            },
            None => ExprModel::Immediate(r.offset),
        },
        RegisterKind::Number => ExprModel::Register(Box::new(r)),
    }
}

/// `base + index * scale + disp`, leaving out what is absent: the scale
/// when it is 1, the displacement when it is 0.
pub open spec fn mem_expr(base: ExprModel, index: Option<ExprModel>, scale: i64, disp: i64) -> ExprModel {
    let e = match index {
        Some(i) => plus(base, if scale != 1 {
            times(i, ExprModel::Immediate(scale))
        } else {
            i
        }),
        None => base,
    };
    if disp != 0 {
        plus(e, ExprModel::Immediate(disp))
    } else {
        e
    }
}

/// The expression an operand reads, with registers replaced by what they hold.
pub open spec fn operand_expr(op: OperandModel, regs: Map<Seq<char>, RegModel>) -> ExprModel {
    match op {
        OperandModel::Reg(r) => reg_expr(read_register(regs, r)),
        OperandModel::Imm(v) => ExprModel::Immediate(v),
        OperandModel::Mem { base, index, scale, disp } => mem_expr(
            match base {
                Some(b) => reg_expr(read_register(regs, b)),
                None => ExprModel::Immediate(0),
            },
            match index {
                Some(i) => Some(reg_expr(read_register(regs, i))),
                None => None,
            },
            scale,
            disp,
        ),
        OperandModel::Label(l) => ExprModel::Abstract(l),
        OperandModel::Other(_) => ExprModel::Immediate(0),
    }
}

/// The address of a memory operand with its registers kept by name.
pub open spec fn address_expr(base: Option<Seq<char>>, index: Option<Seq<char>>, scale: i64, disp: i64) -> ExprModel {
    mem_expr(
        match base {
            Some(b) => ExprModel::Abstract(b),
            None => ExprModel::Immediate(0),
        },
        match index {
            Some(i) => Some(ExprModel::Abstract(i)),
            None => None,
        },
        scale,
        disp,
    )
}

/// The base and offset under which a read of `addr` is recorded: a label,
/// `name + offset`, or the region `memory` at offset 0.
pub open spec fn access_base(addr: ExprModel, labels: Map<Seq<char>, i64>) -> (Seq<char>, i64) {
    match addr {
        ExprModel::Abstract(name) => if labels.contains_key(name) {
            (name, 0)
        } else {
            ("memory"@, 0)
        },
        ExprModel::Expression(op, a, b) => if op == "+"@ && *a is Abstract && *b is Immediate {
            (a->Abstract_0, b->Immediate_0)
        } else {
            ("memory"@, 0)
        },
        _ => ("memory"@, 0),
    }
}

/// The recorded read of `addr`.
pub open spec fn read_access(addr: ExprModel, labels: Map<Seq<char>, i64>) -> AccessModel {
    AccessModel { kind: RegionType::READ, base: access_base(addr, labels).0, offset: access_base(addr, labels).1 }
}

/// The label a vector load reads from: `label` or `label + n` with a known label.
pub open spec fn vector_label(addr: ExprModel, labels: Map<Seq<char>, i64>) -> Option<Seq<char>> {
    match addr {
        ExprModel::Abstract(name) => if labels.contains_key(name) {
            Some(name)
        } else {
            None
        },
        ExprModel::Expression(op, a, b) => if op == "+"@ && *a is Abstract && *b is Immediate
            && labels.contains_key(a->Abstract_0) {
            Some(a->Abstract_0)
        } else {
            None
        },
        _ => None,
    }
}

/// Whether finding the vector label computes `label + n` without overflow.
pub open spec fn vector_label_fits(addr: ExprModel, labels: Map<Seq<char>, i64>) -> bool {
    match addr {
        ExprModel::Expression(op, a, b) => op == "+"@ && *a is Abstract && *b is Immediate
            && labels.contains_key(a->Abstract_0) ==> fits_i64(labels[a->Abstract_0] + b->Immediate_0),
        _ => true,
    }
}

/// The concrete address of `addr` from immediates, labels and `+`.
pub open spec fn label_sum(addr: ExprModel, labels: Map<Seq<char>, i64>) -> Option<int>
    decreases addr,
{
    match addr {
        ExprModel::Immediate(n) => Some(n as int),
        ExprModel::Abstract(name) => if labels.contains_key(name) {
            Some(labels[name] as int)
        } else {
            None
        },
        ExprModel::Expression(op, a, b) => if op == "+"@ {
            match (label_sum(*a, labels), label_sum(*b, labels)) {
                (Some(x), Some(y)) => Some(x + y),
                _ => None,
            }
        } else {
            None
        },
        _ => None,
    }
}

/// Every sum `label_sum` forms fits in an `i64`.
pub open spec fn label_sum_fits(addr: ExprModel, labels: Map<Seq<char>, i64>) -> bool
    decreases addr,
{
    match addr {
        ExprModel::Expression(op, a, b) => op == "+"@ ==> (label_sum_fits(*a, labels) && label_sum_fits(
            *b,
            labels,
        ) && match label_sum(addr, labels) {
            Some(v) => fits_i64(v),
            None => true,
        }),
        _ => true,
    }
}

fn reg_to_expr(rv: RegisterValue) -> (e: AbstractExpression)
    ensures
        e@ == reg_expr(rv@),
{
    match rv.kind {
        RegisterKind::Immediate => AbstractExpression::Immediate(rv.offset),
        RegisterKind::RegisterBase => {
            let off = rv.offset;
            match rv.base {
                Some(b) => if off != 0 {
                    generate_expression("+", b, AbstractExpression::Immediate(off))
                } else {
                    b
                },
                None => AbstractExpression::Immediate(off),
            }
        },
        RegisterKind::Number => AbstractExpression::Register(Box::new(rv)),
    }
}

fn build_mem_expr(base: AbstractExpression, index: Option<AbstractExpression>, scale: i64, disp: i64) -> (e: AbstractExpression)
    ensures
        e@ == mem_expr(base@, crate::common::opt_expr_view(index), scale, disp),
{
    let e = match index {
        Some(i) => {
            let scaled = if scale != 1 {
                generate_expression("*", i, AbstractExpression::Immediate(scale))
            } else {
                i
            };
            generate_expression("+", base, scaled)
        },
        None => base,
    };
    if disp != 0 {
        generate_expression("+", e, AbstractExpression::Immediate(disp))
    } else {
        e
    }
}

/// The expression an operand reads on `comp`.
pub fn operand_to_expr(op: &X86Operand, comp: &X86Computer) -> (r: AbstractExpression)
    ensures
        r@ == operand_expr(op@, comp@.registers),
{
    match op {
        X86Operand::Reg(r) => reg_to_expr(comp.get_register_value(r.as_str())),
        X86Operand::Imm(v) => AbstractExpression::Immediate(*v),
        X86Operand::Mem { base, index, scale, disp } => {
            let b = match base {
                Some(bn) => reg_to_expr(comp.get_register_value(bn.as_str())),
                None => AbstractExpression::Immediate(0),
            };
            let i = match index {
                Some(iname) => Some(reg_to_expr(comp.get_register_value(iname.as_str()))),
                None => None,
            };
            build_mem_expr(b, i, *scale, *disp)
        },
        X86Operand::Label(l) => AbstractExpression::Abstract(l.clone()),
        X86Operand::Other(_) => AbstractExpression::Immediate(0),
    }
}

/// The address of a memory operand, registers kept by name.
pub fn address_of(base: &Option<String>, index: &Option<String>, scale: i64, disp: i64) -> (r: AbstractExpression)
    ensures
        r@ == address_expr(opt_str_view(*base), opt_str_view(*index), scale, disp),
{
    let b = match base {
        Some(bn) => AbstractExpression::Abstract(bn.clone()),
        None => AbstractExpression::Immediate(0),
    };
    let i = match index {
        Some(iname) => Some(AbstractExpression::Abstract(iname.clone())),
        None => None,
    };
    build_mem_expr(b, i, scale, disp)
}

/// The recorded read of `addr`.
pub fn read_access_of(addr: &AbstractExpression, labels: &StrMap<i64>) -> (r: MemoryAccess)
    ensures
        r@ == read_access(addr@, labels@),
{
    let memory = String::from_str("memory");
    proof {
        reveal_strlit("memory");
    }
    let (base, offset): (String, i64) = match addr {
        AbstractExpression::Abstract(name) => if labels.contains_key(name.as_str()) {
            (name.clone(), 0)
        } else {
            (memory, 0)
        },
        AbstractExpression::Expression(op, a, b) => {
            if str_is(op, "+") {
                match (&**a, &**b) {
                    (AbstractExpression::Abstract(name), AbstractExpression::Immediate(off)) => {
                        assert(a@ == ExprModel::Abstract(name@));
                        assert(b@ == ExprModel::Immediate(*off));
                        (name.clone(), *off)
                    },
                    _ => {
                        assert(!(a@ is Abstract && b@ is Immediate));
                        (memory, 0)
                    },
                }
            } else {
                (memory, 0)
            }
        },
        _ => (memory, 0),
    };
    MemoryAccess { kind: RegionType::READ, base, offset }
}

/// The label a vector load reads from, and whether finding it stays
/// within `i64`.
pub fn vector_label_of(addr: &AbstractExpression, labels: &StrMap<i64>) -> (r: (bool, Option<String>))
    ensures
        r.0 == vector_label_fits(addr@, labels@),
        r.1 matches Some(s) ==> vector_label(addr@, labels@) == Some(s@),
        r.1 is None ==> vector_label(addr@, labels@) is None,
{
    match addr {
        AbstractExpression::Abstract(name) => if labels.contains_key(name.as_str()) {
            (true, Some(name.clone()))
        } else {
            (true, None)
        },
        AbstractExpression::Expression(op, a, b) => {
            if str_is(op, "+") {
                match (&**a, &**b) {
                    (AbstractExpression::Abstract(name), AbstractExpression::Immediate(off)) => {
                        assert(a@ == ExprModel::Abstract(name@));
                        assert(b@ == ExprModel::Immediate(*off));
                        match labels.get(name.as_str()) {
                            Some(addr) => ((*addr).checked_add(*off).is_some(), Some(name.clone())),
                            None => (true, None),
                        }
                    },
                    _ => {
                        assert(!(a@ is Abstract && b@ is Immediate));
                        (true, None)
                    },
                }
            } else {
                (true, None)
            }
        },
        _ => (true, None),
    }
}

/// The concrete address of `addr` from immediates, labels and `+`, and
/// whether every sum on the way stays within `i64`.
pub fn label_sum_of(addr: &AbstractExpression, labels: &StrMap<i64>) -> (r: (bool, Option<i64>))
    ensures
        r.0 == label_sum_fits(addr@, labels@),
        r.0 ==> match r.1 {
            Some(v) => label_sum(addr@, labels@) == Some(v as int),
            None => label_sum(addr@, labels@) is None,
        },
    decreases addr,
{
    match addr {
        AbstractExpression::Immediate(n) => (true, Some(*n)),
        AbstractExpression::Abstract(name) => match labels.get(name.as_str()) {
            Some(v) => (true, Some(*v)),
            None => (true, None),
        },
        AbstractExpression::Expression(op, a, b) => {
            if !str_is(op, "+") {
                return (true, None);
            }
            let (fa, la) = label_sum_of(&**a, labels);
            let (fb, lb) = label_sum_of(&**b, labels);
            if !fa || !fb {
                return (false, None);
            }
            match (la, lb) {
                (Some(x), Some(y)) => match x.checked_add(y) {
                    Some(z) => (true, Some(z)),
                    None => (false, None),
                },
                _ => (true, None),
            }
        },
        _ => (true, None),
    }
}


/// Model of a `PathState`.
pub struct PathModel {
    pub pc: usize,
    pub machine: X86Model,
    pub last_comparison: Option<CmpModel>,
    pub accesses: Seq<AccessModel>,
}

/// One path of the run: where it is, its machine, the comparison a
/// following conditional jump would test, and the reads it has made.
pub struct PathState {
    pub pc: usize,
    pub comp: X86Computer,
    pub last_comparison: Option<AbstractComparison>,
    pub rw_list: Vec<MemoryAccess>,
}

pub open spec fn opt_comparison_view(c: Option<AbstractComparison>) -> Option<CmpModel> {
    match c {
        Some(x) => Some(x@),
        None => None,
    }
}

pub open spec fn accesses_view(v: Seq<MemoryAccess>) -> Seq<AccessModel> {
    v.map_values(|a: MemoryAccess| a@)
}

impl PathState {
    pub open spec fn view(&self) -> PathModel {
        PathModel {
            pc: self.pc,
            machine: self.comp@,
            last_comparison: opt_comparison_view(self.last_comparison),
            accesses: accesses_view(self.rw_list@),
        }
    }
}

pub open spec fn paths_view(v: Seq<PathState>) -> Seq<PathModel> {
    v.map_values(|p: PathState| p@)
}

/// The registers of a machine, as a function of names.
pub open spec fn machine_regs(m: X86Model) -> spec_fn(Seq<char>) -> RegModel {
    |n: Seq<char>| read_register(m.registers, n)
}


/// Model of what one step of a path gives.
pub enum StepModel {
    /// The paths that follow, in the order they are pushed (the last runs first).
    Next(Seq<PathModel>),
    /// A conditional jump on `cond` waits for the solver; it goes to
    /// `target` when taken and to `fallthrough` when not.
    Branch { state: PathModel, cond: CmpModel, target: usize, fallthrough: usize, jump_if_true: bool },
    /// A read waits for the verdicts on its first and last byte; `next` is
    /// the path after it, `None` when finishing the read faults.
    Read { next: Option<PathModel>, start: PlanModel, end: PlanModel },
    /// The run stops with this message.
    Fail(Seq<char>),
    /// The step overflows an `i64`.
    Fault,
}

/// What `cmp` and `test` record: `left == right` for `cmp`, `reg == 0` for
/// `test` of a register with itself, nothing for another `test`; with fewer
/// than two operands the recorded comparison stays.
pub open spec fn recorded_comparison(ins: InstrModel, m: X86Model, prev: Option<CmpModel>) -> Option<CmpModel> {
    if ins.operands.len() >= 2 {
        let left = operand_expr(ins.operands[0], m.registers);
        let right = operand_expr(ins.operands[1], m.registers);
        if ins.opcode == "test"@ {
            match (ins.operands[0], ins.operands[1]) {
                (OperandModel::Reg(a), OperandModel::Reg(b)) => if a == b {
                    Some(CmpModel { op: "=="@, left, right: ExprModel::Immediate(0) })
                } else {
                    None
                },
                _ => None,
            }
        } else {
            Some(CmpModel { op: "=="@, left, right })
        }
    } else {
        prev
    }
}

pub open spec fn is_cond_jump(op: Seq<char>) -> bool {
    op == "je"@ || op == "jz"@ || op == "jne"@ || op == "jnz"@
}

/// The message of a jump without operands.
pub open spec fn no_target_message(prefix: Seq<char>, opcode: Seq<char>) -> Seq<char> {
    prefix + "X86Instruction { opcode: "@ + str_debug(opcode) + ", operands: [] }"@
}

pub open spec fn goto(s: PathModel, pc: usize) -> PathModel {
    PathModel { pc, ..s }
}

/// The path a taken or fallen-through branch continues with: the same
/// machine (its asserted formulas included), no pending comparison.
pub open spec fn branch_path(s: PathModel, pc: usize) -> PathModel {
    PathModel { pc, last_comparison: None, ..s }
}

pub open spec fn with_regs(s: PathModel, regs: Map<Seq<char>, RegModel>) -> PathModel {
    PathModel { pc: (s.pc + 1) as usize, machine: X86Model { registers: regs, ..s.machine }, ..s }
}

/// The steps of `lea`, `mov` between registers or from an immediate, and
/// `add`/`sub` into a register; `None` for anything else.
pub open spec fn reg_step(ins: InstrModel, s: PathModel) -> Option<StepModel> {
    let ops = ins.operands;
    let regs = s.machine.registers;
    if ops.len() < 2 {
        None
    } else if ins.opcode == "lea"@ {
        match (ops[0], ops[1]) {
            (OperandModel::Reg(dst), OperandModel::Mem { base, index, scale, disp }) => Some(
                StepModel::Next(seq![with_regs(s, put_register(regs, dst, rv_new_model(RegisterKind::RegisterBase, Some(address_expr(base, index, scale, disp)), 0)))]),
            ),
            _ => None,
        }
    } else if ins.opcode == "mov"@ {
        match (ops[0], ops[1]) {
            (OperandModel::Reg(dst), OperandModel::Imm(v)) => Some(StepModel::Next(seq![with_regs(s, write_imm_model(regs, dst, v))])),
            (OperandModel::Reg(dst), OperandModel::Reg(src)) => Some(
                StepModel::Next(seq![with_regs(s, write_value_model(regs, dst, read_register(regs, src)))]),
            ),
            _ => None,
        }
    } else if ins.opcode == "add"@ || ins.opcode == "sub"@ {
        match (ops[0], ops[1]) {
            (OperandModel::Reg(dst), OperandModel::Imm(v)) => {
                let val = read_register(regs, dst);
                let delta: int = if ins.opcode == "add"@ { v as int } else { -v };
                if ins.opcode == "sub"@ && v == i64::MIN || !fits_i64(val.offset + delta) {
                    Some(StepModel::Fault)
                } else {
                    let n = (val.offset + delta) as i64;
                    Some(StepModel::Next(seq![with_regs(s, put_register(regs, dst, if val.kind == RegisterKind::Immediate {
                        imm_value(n)
                    } else {
                        rv_new_model(RegisterKind::RegisterBase, val.base, n)
                    }))]))
                }
            },
            (OperandModel::Reg(dst), OperandModel::Reg(src)) => {
                let sv = read_register(regs, src);
                let dv = read_register(regs, dst);
                let left = match dv.base { Some(b) => b, None => ExprModel::Immediate(dv.offset) };
                let right = match sv.base { Some(b) => b, None => ExprModel::Immediate(sv.offset) };
                Some(StepModel::Next(seq![with_regs(s, put_register(regs, dst, rv_new_model(RegisterKind::RegisterBase, Some(plus(left, right)), 0)))]))
            },
            _ => None,
        }
    } else {
        None
    }
}

/// Where a read starts: its address reduced to an immediate when labels and
/// register immediates give one.
pub open spec fn read_start(addr: ExprModel, m: X86Model) -> ExprModel {
    match resolve(addr, m.labels, machine_regs(m)) {
        Some(v) => ExprModel::Immediate(v as i64),
        None => addr,
    }
}

/// Whether a read of `width` bytes at `addr` can be planned without a fault.
pub open spec fn read_ok(addr: ExprModel, m: X86Model, width: i64) -> bool {
    &&& resolve_fits(addr, m.labels, machine_regs(m))
    &&& access_ok(m, read_start(addr, m), 0)
    &&& access_ok(m, plus(read_start(addr, m), ExprModel::Immediate((width - 1) as i64)), 0)
}

/// The step of a read of `width` bytes at `addr` that, once both ends pass,
/// continues with `next`.
pub open spec fn read_step(addr: ExprModel, m: X86Model, width: i64, next: Option<PathModel>) -> StepModel {
    if !read_ok(addr, m, width) {
        StepModel::Fault
    } else {
        StepModel::Read {
            next,
            start: access_plan(m, read_start(addr, m), 0, RegionType::READ),
            end: access_plan(m, plus(read_start(addr, m), ExprModel::Immediate((width - 1) as i64)), 0, RegionType::READ),
        }
    }
}

/// The lanes of a vector load from `base`: lane `i` holds `base + i`.
pub open spec fn vector_lanes(n: nat, base: ExprModel) -> Seq<RegModel> {
    Seq::new(n, |i: int| rv_new_model(RegisterKind::RegisterBase, Some(plus(base, ExprModel::Immediate(i as i64))), 0))
}

/// The byte of region `r` at `a`.
pub open spec fn byte_at(r: RegionModel, a: i64) -> RegModel {
    if r.content.contains_key(a) {
        r.content[a]
    } else {
        unknown_byte()
    }
}

/// The registers after `mov dst, [addr]`: the stored immediate when the
/// address is concrete and memory holds one there (zero-extended from 32
/// bits for a 32-bit register), the address itself otherwise.
pub open spec fn mov_load(m: X86Model, dst: Seq<char>, addr: ExprModel) -> Map<Seq<char>, RegModel> {
    let symbolic = put_register(m.registers, dst, rv_new_model(RegisterKind::RegisterBase, Some(addr), 0));
    match label_sum(addr, m.labels) {
        Some(a) => if m.memory.contains_key("memory"@) && byte_at(m.memory["memory"@], a as i64).kind
            == RegisterKind::Immediate {
            let v = byte_at(m.memory["memory"@], a as i64).offset;
            put_register(m.registers, dst, imm_value(if is_dword_alias(dst) {
                (v as u32) as i64
            } else {
                v
            }))
        } else {
            symbolic
        },
        None => symbolic,
    }
}

/// The width in bytes of `mov` into `dst`.
pub open spec fn mov_width(dst: OperandModel) -> i64 {
    match dst {
        OperandModel::Reg(rn) => if ends_with(rn, "d"@) || starts_with(rn, "e"@) {
            4
        } else if ends_with(rn, "b"@) {
            1
        } else {
            8
        },
        _ => 8,
    }
}

/// The steps of `vmovdqu`/`vmovd` and `mov` from memory; `None` for
/// anything else.
pub open spec fn mem_step(ins: InstrModel, s: PathModel) -> Option<StepModel> {
    let ops = ins.operands;
    let m = s.machine;
    if ops.len() < 2 || !(ops[1] is Mem) {
        None
    } else {
        let addr = address_expr(ops[1]->base, ops[1]->index, ops[1]->scale, ops[1]->disp);
        let accesses = s.accesses.push(read_access(addr, m.labels));
        if ins.opcode == "vmovdqu"@ || ins.opcode == "vmovd"@ {
            let next = match ops[0] {
                OperandModel::Reg(dst) => if m.simd.contains_key(dst) {
                    if !vector_label_fits(addr, m.labels) {
                        None
                    } else {
                        let base = match vector_label(addr, m.labels) {
                            Some(l) => ExprModel::Abstract(l),
                            None => addr,
                        };
                        Some(PathModel {
                            pc: (s.pc + 1) as usize,
                            machine: X86Model { simd: m.simd.insert(dst, vector_lanes(m.simd[dst].len(), base)), ..m },
                            accesses,
                            ..s
                        })
                    }
                } else {
                    Some(PathModel { pc: (s.pc + 1) as usize, accesses, ..s })
                },
                _ => Some(PathModel { pc: (s.pc + 1) as usize, accesses, ..s }),
            };
            Some(read_step(addr, m, 32, next))
        } else if ins.opcode == "mov"@ {
            let next = match ops[0] {
                OperandModel::Reg(dst) => if !label_sum_fits(addr, m.labels) {
                    None
                } else {
                    Some(PathModel { accesses, ..with_regs(s, mov_load(m, dst, addr)) })
                },
                _ => Some(PathModel { pc: (s.pc + 1) as usize, accesses, ..s }),
            };
            Some(read_step(addr, m, mov_width(ops[0]), next))
        } else {
            None
        }
    }
}

/// One step of a path at `s.pc` of `prog`, with `code_labels` the positions
/// of the code labels.
pub open spec fn step_model(prog: Seq<InstrModel>, code_labels: Map<Seq<char>, usize>, s: PathModel) -> StepModel {
    let ins = prog[s.pc as int];
    let op = ins.opcode;
    let ops = ins.operands;
    let next = goto(s, (s.pc + 1) as usize);
    if op == "cmp"@ || op == "test"@ {
        StepModel::Next(seq![PathModel { last_comparison: recorded_comparison(ins, s.machine, s.last_comparison), ..next }])
    } else if is_cond_jump(op) {
        if ops.len() == 0 {
            StepModel::Fail(no_target_message("Conditional jump with no target: "@, op))
        } else {
            match ops[0] {
                OperandModel::Label(l) => if code_labels.contains_key(l) {
                    let target = code_labels[l];
                    match s.last_comparison {
                        None => StepModel::Next(seq![branch_path(s, (s.pc + 1) as usize), branch_path(s, target)]),
                        Some(c) => StepModel::Branch {
                            state: s,
                            cond: c,
                            target,
                            fallthrough: (s.pc + 1) as usize,
                            jump_if_true: op == "je"@ || op == "jz"@,
                        },
                    }
                } else {
                    StepModel::Next(seq![next])
                },
                _ => StepModel::Next(seq![next]),
            }
        }
    } else if op == "jmp"@ {
        if ops.len() == 0 {
            StepModel::Fail(no_target_message("jmp with no target: "@, op))
        } else {
            match ops[0] {
                OperandModel::Label(l) => if code_labels.contains_key(l) {
                    StepModel::Next(seq![goto(s, code_labels[l])])
                } else {
                    StepModel::Next(Seq::empty())
                },
                _ => StepModel::Next(Seq::empty()),
            }
        }
    } else {
        match reg_step(ins, s) {
            Some(r) => r,
            None => match mem_step(ins, s) {
                Some(r) => r,
                None => StepModel::Next(seq![PathModel { last_comparison: None, ..next }]),
            },
        }
    }
}


/// What one step of a path gives.
pub enum Step {
    Next(Vec<PathState>),
    Branch { state: PathState, cond: AbstractComparison, target: usize, fallthrough: usize, jump_if_true: bool },
    Read { next: Option<PathState>, start: AccessPlan, end: AccessPlan },
    Fail(String),
    Fault,
}

pub open spec fn opt_path_view(p: Option<PathState>) -> Option<PathModel> {
    match p {
        Some(x) => Some(x@),
        None => None,
    }
}

impl Step {
    pub open spec fn view(&self) -> StepModel {
        match self {
            Step::Next(v) => StepModel::Next(paths_view(v@)),
            Step::Branch { state, cond, target, fallthrough, jump_if_true } => StepModel::Branch {
                state: state@,
                cond: cond@,
                target: *target,
                fallthrough: *fallthrough,
                jump_if_true: *jump_if_true,
            },
            Step::Read { next, start, end } => StepModel::Read { next: opt_path_view(*next), start: start@, end: end@ },
            Step::Fail(m) => StepModel::Fail(m@),
            Step::Fault => StepModel::Fault,
        }
    }
}

fn one(p: PathState) -> (r: Vec<PathState>)
    ensures
        paths_view(r@) == seq![p@],
{
    let v = vec![p];
    assert(paths_view(v@) =~= seq![v@[0]@]);
    v
}

fn is_dword_name(name: &String) -> (r: bool)
    ensures
        r == is_dword_alias(name@),
{
    let w = chars_of(name.as_str());
    assert(w@.subrange(0, w.len() as int) =~= w@);
    ends_with_range(&w, 0, w.len(), "d") || starts_with_range(&w, 0, w.len(), "e")
}

fn mov_width_exec(dst: &X86Operand) -> (r: i64)
    ensures
        r == mov_width(dst@),
{
    match dst {
        X86Operand::Reg(rn) => {
            let w = chars_of(rn.as_str());
            assert(w@.subrange(0, w.len() as int) =~= w@);
            if ends_with_range(&w, 0, w.len(), "d") || starts_with_range(&w, 0, w.len(), "e") {
                4
            } else if ends_with_range(&w, 0, w.len(), "b") {
                1
            } else {
                8
            }
        },
        _ => 8,
    }
}

fn recorded_comparison_exec(ins: &X86Instruction, comp: &X86Computer, prev: Option<AbstractComparison>) -> (r: Option<AbstractComparison>)
    ensures
        opt_comparison_view(r) == recorded_comparison(ins@, comp@, opt_comparison_view(prev)),
{
    if ins.operands.len() >= 2 {
        let left = operand_to_expr(&ins.operands[0], comp);
        let right = operand_to_expr(&ins.operands[1], comp);
        assert(ins@.operands[0] == ins.operands@[0]@);
        assert(ins@.operands[1] == ins.operands@[1]@);
        if str_is(&ins.opcode, "test") {
            match (&ins.operands[0], &ins.operands[1]) {
                (X86Operand::Reg(a), X86Operand::Reg(b)) => if a.eq(b) {
                    Some(AbstractComparison::new("==", left, AbstractExpression::Immediate(0)))
                } else {
                    None
                },
                _ => None,
            }
        } else {
            Some(AbstractComparison::new("==", left, right))
        }
    } else {
        prev
    }
}

fn no_target(prefix: &str, opcode: &String) -> (r: String)
    ensures
        r@ == no_target_message(prefix@, opcode@),
{
    let mut out: Vec<char> = Vec::new();
    push_str(&mut out, prefix);
    push_str(&mut out, "X86Instruction { opcode: ");
    push_str_debug(&mut out, opcode);
    push_str(&mut out, ", operands: [] }");
    string_from_chars(out.as_slice())
}

fn clone_accesses(v: &Vec<MemoryAccess>) -> (r: Vec<MemoryAccess>)
    ensures
        accesses_view(r@) == accesses_view(v@),
{
    let mut rw: Vec<MemoryAccess> = Vec::new();
    let mut i: usize = 0;
    while i < v.len()
        invariant
            i <= v@.len(),
            rw@.len() == i,
            forall|j: int| 0 <= j < i ==> (#[trigger] rw@[j])@ == v@[j]@,
        decreases v@.len() - i,
    {
        let a = v[i].clone();
        rw.push(a);
        i = i + 1;
    }
    assert(accesses_view(rw@) =~= accesses_view(v@));
    rw
}

/// The path continuing at `pc` after a branch: a fresh machine, no recorded
/// comparison.
pub fn branch_to(s: &PathState, pc: usize) -> (r: PathState)
    ensures
        r@ == branch_path(s@, pc),
{
    PathState { pc, comp: clone_machine(&s.comp), last_comparison: None, rw_list: clone_accesses(&s.rw_list) }
}

/// A copy of a machine, its asserted formulas included.
pub fn clone_machine(c: &X86Computer) -> (r: X86Computer)
    ensures
        r@ == c@,
{
    let mut n = c.clone_shallow();
    let mut i: usize = 0;
    assert(formulas_view(c.assertions@).take(0) =~= Seq::<CmpModel>::empty());
    while i < c.assertions.len()
        invariant
            i <= c.assertions@.len(),
            n@ == (X86Model { assertions: formulas_view(c.assertions@).take(i as int), ..c@ }),
        decreases c.assertions@.len() - i,
    {
        let f = copy_comparison(&c.assertions[i]);
        let ghost prev = n.assertions@;
        assert(formulas_view(prev) == formulas_view(c.assertions@).take(i as int));
        n.assertions.push(f);
        assert(formulas_view(n.assertions@) =~= formulas_view(prev).push(f@));
        assert(formulas_view(n.assertions@) =~= formulas_view(c.assertions@).take(i + 1));
        i = i + 1;
    }
    assert(formulas_view(c.assertions@).take(i as int) =~= formulas_view(c.assertions@));
    n
}

fn reg_step_exec(ins: &X86Instruction, s: PathState) -> (r: Result<Step, PathState>)
    requires
        s.pc < usize::MAX,
    ensures
        match r {
            Ok(st) => reg_step(ins@, s@) == Some(st@),
            Err(back) => reg_step(ins@, s@) is None && back@ == s@,
        },
{
    let mut s = s;
    let ghost s0 = s@;
    if ins.operands.len() < 2 {
        return Err(s);
    }
    assert(ins@.operands[0] == ins.operands@[0]@);
    assert(ins@.operands[1] == ins.operands@[1]@);
    if str_is(&ins.opcode, "lea") {
        match (&ins.operands[0], &ins.operands[1]) {
            (X86Operand::Reg(dst), X86Operand::Mem { base, index, scale, disp }) => {
                let e = address_of(base, index, *scale, *disp);
                s.comp.set_register_abstract(dst.as_str(), Some(e), 0);
                s.pc = s.pc + 1;
                return Ok(Step::Next(one(s)));
            },
            _ => {
                return Err(s);
            },
        }
    } else if str_is(&ins.opcode, "mov") {
        match (&ins.operands[0], &ins.operands[1]) {
            (X86Operand::Reg(dst), X86Operand::Imm(v)) => {
                s.comp.write_register_from_imm(dst.as_str(), *v);
                s.pc = s.pc + 1;
                return Ok(Step::Next(one(s)));
            },
            (X86Operand::Reg(dst), X86Operand::Reg(src)) => {
                let val = s.comp.get_register_value(src.as_str());
                s.comp.write_register_from_value(dst.as_str(), val);
                s.pc = s.pc + 1;
                return Ok(Step::Next(one(s)));
            },
            _ => {
                return Err(s);
            },
        }
    } else if str_is(&ins.opcode, "add") || str_is(&ins.opcode, "sub") {
        let is_add = str_is(&ins.opcode, "add");
        proof {
            reveal_strlit("add");
            reveal_strlit("sub");
            assert("add"@[0] != "sub"@[0]);
        }
        match (&ins.operands[0], &ins.operands[1]) {
            (X86Operand::Reg(dst), X86Operand::Imm(v)) => {
                let val = s.comp.get_register_value(dst.as_str());
                if !is_add && *v == i64::MIN {
                    return Ok(Step::Fault);
                }
                let delta: i64 = if is_add { *v } else { -*v };
                let n = match val.offset.checked_add(delta) {
                    Some(n) => n,
                    None => {
                        return Ok(Step::Fault);
                    },
                };
                let ghost vm = val@;
                assert(vm.offset + (if is_add { *v as int } else { -*v }) == n);
                if val.kind == RegisterKind::Immediate {
                    s.comp.set_register_imm(dst.as_str(), n);
                } else {
                    let b = val.base;
                    assert(crate::common::opt_expr_view(b) == vm.base);
                    s.comp.set_register_abstract(dst.as_str(), b, n);
                }
                s.pc = s.pc + 1;
                return Ok(Step::Next(one(s)));
            },
            (X86Operand::Reg(dst), X86Operand::Reg(src)) => {
                let sv = s.comp.get_register_value(src.as_str());
                let dv = s.comp.get_register_value(dst.as_str());
                let left = match dv.base {
                    Some(b) => b,
                    None => AbstractExpression::Immediate(dv.offset),
                };
                let right = match sv.base {
                    Some(b) => b,
                    None => AbstractExpression::Immediate(sv.offset),
                };
                let e = generate_expression("+", left, right);
                s.comp.set_register_abstract(dst.as_str(), Some(e), 0);
                s.pc = s.pc + 1;
                return Ok(Step::Next(one(s)));
            },
            _ => {
                return Err(s);
            },
        }
    }
    Err(s)
}


/// The two access plans of a read of `width` bytes at `addr`, or `None`
/// when planning them would fault.
fn plan_read(comp: &X86Computer, addr: &AbstractExpression, width: i64) -> (r: Option<(AccessPlan, AccessPlan)>)
    requires
        1 <= width <= 32,
    ensures
        r is None <==> !read_ok(addr@, comp@, width),
        r matches Some(p) ==> p.0@ == access_plan(comp@, read_start(addr@, comp@), 0, RegionType::READ)
            && p.1@ == access_plan(
            comp@,
            plus(read_start(addr@, comp@), ExprModel::Immediate((width - 1) as i64)),
            0,
            RegionType::READ,
        ),
{
    let (fits, concrete) = resolve_checked(addr, &comp.memory_labels, comp);
    assert(provider_regs(*comp) =~= machine_regs(comp@));
    if !fits {
        return None;
    }
    let start = match concrete {
        Some(v) => AbstractExpression::Immediate(v),
        None => clone_expr(addr),
    };
    let end = generate_expression("+", clone_expr(&start), AbstractExpression::Immediate(width - 1));
    if !comp.access_ok_exec(&start, 0) || !comp.access_ok_exec(&end, 0) {
        return None;
    }
    let p1 = comp.mem_safe_access_plan(start, 0, RegionType::READ);
    let p2 = comp.mem_safe_access_plan(end, 0, RegionType::READ);
    Some((p1, p2))
}

/// The lanes of a vector load from `base`.
fn vector_lanes_exec(n: usize, base: &AbstractExpression) -> (r: Vec<RegisterValue>)
    ensures
        lanes_view(r@) == vector_lanes(n as nat, base@),
{
    let mut v: Vec<RegisterValue> = Vec::new();
    let mut i: usize = 0;
    while i < n
        invariant
            i <= n,
            v@.len() == i,
            forall|j: int| 0 <= j < i ==> (#[trigger] v@[j])@ == vector_lanes(n as nat, base@)[j],
        decreases n - i,
    {
        let e = generate_expression("+", clone_expr(base), AbstractExpression::Immediate(i as i64));
        v.push(RegisterValue::new(RegisterKind::RegisterBase, Some(e), 0));
        i = i + 1;
    }
    assert(lanes_view(v@) =~= vector_lanes(n as nat, base@));
    v
}

/// The immediate stored in region `memory` at the concrete address `sum`, if any.
fn load_imm(comp: &X86Computer, sum: Option<i64>) -> (r: Option<i64>)
    ensures
        r == match sum {
            Some(a) => if comp@.memory.contains_key("memory"@) && byte_at(comp@.memory["memory"@], a).kind
                == RegisterKind::Immediate {
                Some(byte_at(comp@.memory["memory"@], a).offset)
            } else {
                None
            },
            None => None,
        },
{
    proof {
        reveal_strlit("memory");
    }
    match sum {
        Some(a) => match comp.memory.get("memory") {
            Some(region) => match region.get(a) {
                Some(mv) => if mv.kind == RegisterKind::Immediate {
                    Some(mv.offset)
                } else {
                    None
                },
                None => None,
            },
            None => None,
        },
        None => None,
    }
}

fn mem_step_exec(ins: &X86Instruction, s: PathState) -> (r: Result<Step, PathState>)
    requires
        s.pc < usize::MAX,
    ensures
        match r {
            Ok(st) => mem_step(ins@, s@) == Some(st@),
            Err(back) => mem_step(ins@, s@) is None && back@ == s@,
        },
{
    let mut s = s;
    let ghost s0 = s@;
    if ins.operands.len() < 2 {
        return Err(s);
    }
    assert(ins@.operands[0] == ins.operands@[0]@);
    assert(ins@.operands[1] == ins.operands@[1]@);
    let (base, index, scale, disp) = match &ins.operands[1] {
        X86Operand::Mem { base, index, scale, disp } => (base, index, *scale, *disp),
        _ => {
            return Err(s);
        },
    };
    let is_vec = str_is(&ins.opcode, "vmovdqu") || str_is(&ins.opcode, "vmovd");
    let is_mov = str_is(&ins.opcode, "mov");
    if !is_vec && !is_mov {
        return Err(s);
    }
    let addr = address_of(base, index, scale, disp);
    let width: i64 = if is_vec {
        32
    } else {
        mov_width_exec(&ins.operands[0])
    };
    let (p1, p2) = match plan_read(&s.comp, &addr, width) {
        Some(p) => p,
        None => {
            return Ok(Step::Fault);
        },
    };
    let acc = read_access_of(&addr, &s.comp.memory_labels);
    let ghost accs = s0.accesses.push(acc@);
    s.rw_list.push(acc);
    assert(accesses_view(s.rw_list@) =~= accs);
    s.pc = s.pc + 1;
    let next: Option<PathState> = if is_vec {
        match &ins.operands[0] {
            X86Operand::Reg(dst) => match s.comp.simd_registers.index_of(dst.as_str()) {
                Some(i) => {
                    let (fits, label) = vector_label_of(&addr, &s.comp.memory_labels);
                    if !fits {
                        None
                    } else {
                        let n = s.comp.simd_registers.val_at(i).len();
                        let base_e = match label {
                            Some(l) => AbstractExpression::Abstract(l),
                            None => clone_expr(&addr),
                        };
                        let lanes = vector_lanes_exec(n, &base_e);
                        let _old = s.comp.simd_registers.replace_at(i, lanes);
                        Some(s)
                    }
                },
                None => Some(s),
            },
            _ => Some(s),
        }
    } else {
        match &ins.operands[0] {
            X86Operand::Reg(dst) => {
                let (fits, sum) = label_sum_of(&addr, &s.comp.memory_labels);
                if !fits {
                    None
                } else {
                    match load_imm(&s.comp, sum) {
                        Some(v) => {
                            let v2 = if is_dword_name(dst) {
                                (v as u32) as i64
                            } else {
                                v
                            };
                            s.comp.set_register_imm(dst.as_str(), v2);
                        },
                        None => {
                            s.comp.set_register_abstract(dst.as_str(), Some(clone_expr(&addr)), 0);
                        },
                    }
                    Some(s)
                }
            },
            _ => Some(s),
        }
    };
    Ok(Step::Read { next, start: p1, end: p2 })
}


fn two(a: PathState, b: PathState) -> (r: Vec<PathState>)
    ensures
        paths_view(r@) == seq![a@, b@],
{
    let v = vec![a, b];
    assert(paths_view(v@) =~= seq![v@[0]@, v@[1]@]);
    v
}

/// Runs one instruction of path `s`: the paths that follow, or what the
/// step waits for, or how the run stops.
pub fn step_path(program: &Vec<X86Instruction>, labels: &StrMap<usize>, s: PathState) -> (r: Step)
    requires
        s.pc < program@.len(),
    ensures
        r@ == step_model(instrs_view(program@), labels@, s@),
{
    let n = program.len();
    assert(s.pc < n);
    let ins = &program[s.pc];
    assert(instrs_view(program@)[s.pc as int] == ins@);
    let op = &ins.opcode;
    if str_is(op, "cmp") || str_is(op, "test") {
        let PathState { pc, comp, last_comparison, rw_list } = s;
        let c = recorded_comparison_exec(ins, &comp, last_comparison);
        return Step::Next(one(PathState { pc: pc + 1, comp, last_comparison: c, rw_list }));
    }
    if str_is(op, "je") || str_is(op, "jz") || str_is(op, "jne") || str_is(op, "jnz") {
        if ins.operands.len() == 0 {
            return Step::Fail(no_target("Conditional jump with no target: ", op));
        }
        assert(ins@.operands[0] == ins.operands@[0]@);
        let mut s = s;
        match &ins.operands[0] {
            X86Operand::Label(l) => match labels.get(l.as_str()) {
                Some(t) => {
                    let target = *t;
                    match &s.last_comparison {
                        None => {
                            let not_taken = branch_to(&s, s.pc + 1);
                            let taken = branch_to(&s, target);
                            return Step::Next(two(not_taken, taken));
                        },
                        Some(c) => {
                            let cond = copy_comparison(c);
                            let jump_if_true = str_is(op, "je") || str_is(op, "jz");
                            let fallthrough = s.pc + 1;
                            return Step::Branch { state: s, cond, target, fallthrough, jump_if_true };
                        },
                    }
                },
                None => {
                    s.pc = s.pc + 1;
                    return Step::Next(one(s));
                },
            },
            _ => {
                s.pc = s.pc + 1;
                return Step::Next(one(s));
            },
        }
    }
    if str_is(op, "jmp") {
        if ins.operands.len() == 0 {
            return Step::Fail(no_target("jmp with no target: ", op));
        }
        assert(ins@.operands[0] == ins.operands@[0]@);
        let mut s = s;
        match &ins.operands[0] {
            X86Operand::Label(l) => match labels.get(l.as_str()) {
                Some(t) => {
                    s.pc = *t;
                    return Step::Next(one(s));
                },
                None => {
                    let none: Vec<PathState> = Vec::new();
                    assert(paths_view(none@) =~= Seq::<PathModel>::empty());
                    return Step::Next(none);
                },
            },
            _ => {
                let none: Vec<PathState> = Vec::new();
                assert(paths_view(none@) =~= Seq::<PathModel>::empty());
                return Step::Next(none);
            },
        }
    }
    match reg_step_exec(ins, s) {
        Ok(st) => st,
        Err(s) => match mem_step_exec(ins, s) {
            Ok(st) => st,
            Err(s) => {
                let mut s = s;
                s.pc = s.pc + 1;
                s.last_comparison = None;
                Step::Next(one(s))
            },
        },
    }
}


/// The step of `mov r, [mem]` is a read of `width` bytes: it faults unless
/// the address resolves and its first and last bytes lie in a region, and
/// otherwise checks both ends against the regions.
pub open spec fn mov_reads_bytes(prog: Seq<InstrModel>, code_labels: Map<Seq<char>, usize>, s: PathModel, width: int) -> bool {
    let mem = prog[s.pc as int].operands[1];
    let addr = address_expr(mem->base, mem->index, mem->scale, mem->disp);
    let m = s.machine;
    let first = read_start(addr, m);
    let last = plus(first, ExprModel::Immediate((width - 1) as i64));
    let st = step_model(prog, code_labels, s);
    &&& st is Fault <==> !(resolve_fits(addr, m.labels, machine_regs(m)) && access_ok(m, first, 0) && access_ok(
        m,
        last,
        0,
    ))
    &&& st is Fault || st is Read
    &&& st is Read ==> st->start == access_plan(m, first, 0, RegionType::READ) && st->end == access_plan(
        m,
        last,
        0,
        RegionType::READ,
    )
}

/// `s` is at `mov r, [mem]` in `prog`.
pub open spec fn at_mov_load(prog: Seq<InstrModel>, s: PathModel, r: Seq<char>) -> bool {
    &&& s.pc < prog.len()
    &&& prog[s.pc as int].opcode == "mov"@
    &&& prog[s.pc as int].operands.len() >= 2
    &&& prog[s.pc as int].operands[0] == OperandModel::Reg(r)
    &&& prog[s.pc as int].operands[1] is Mem
}

proof fn lemma_mov_load_step(prog: Seq<InstrModel>, code_labels: Map<Seq<char>, usize>, s: PathModel, r: Seq<char>)
    requires
        at_mov_load(prog, s, r),
    ensures
        mov_reads_bytes(prog, code_labels, s, mov_width(OperandModel::Reg(r)) as int),
{
    reveal_strlit("mov");
    reveal_strlit("cmp");
    reveal_strlit("test");
    reveal_strlit("je");
    reveal_strlit("jz");
    reveal_strlit("jne");
    reveal_strlit("jnz");
    reveal_strlit("jmp");
    reveal_strlit("lea");
    reveal_strlit("add");
    reveal_strlit("sub");
    reveal_strlit("vmovdqu");
    reveal_strlit("vmovd");
    let ins = prog[s.pc as int];
    assert(ins.opcode[0] == 'm');
    assert(ins.opcode != "cmp"@ && ins.opcode != "test"@ && ins.opcode != "lea"@ && ins.opcode != "add"@
        && ins.opcode != "sub"@ && ins.opcode != "vmovdqu"@ && ins.opcode != "vmovd"@);
    assert(!is_cond_jump(ins.opcode) && ins.opcode != "jmp"@);
    assert(reg_step(ins, s) is None);
}

/// A `mov` from memory into one of the sixteen 64-bit general registers is
/// an eight-byte read: the step faults unless the address resolves and both
/// the first byte and the byte at the start plus 7 lie in a region; else it
/// reads, checking the start and the start plus 7 against the regions.
pub proof fn law_mov_into_full_register_reads_eight_bytes(
    prog: Seq<InstrModel>,
    code_labels: Map<Seq<char>, usize>,
    s: PathModel,
    r: Seq<char>,
)
    requires
        at_mov_load(prog, s, r),
        gp_names().contains(r),
    ensures
        mov_reads_bytes(prog, code_labels, s, 8),
{
    let i = choose|i: int| 0 <= i < gp_names().len() && gp_names()[i] == r;
    lemma_gp_names_plain(i);
    lemma_mov_load_step(prog, code_labels, s, r);
}

/// A `mov` from memory into a 32-bit register (`eax`, `r8d`, ...: a name
/// that starts with `e` or ends in `d`) is a four-byte read, its end checked
/// at the start plus 3.
pub proof fn law_mov_into_dword_register_reads_four_bytes(
    prog: Seq<InstrModel>,
    code_labels: Map<Seq<char>, usize>,
    s: PathModel,
    r: Seq<char>,
)
    requires
        at_mov_load(prog, s, r),
        r.len() > 0,
        r[0] == 'e' || r.last() == 'd',
    ensures
        mov_reads_bytes(prog, code_labels, s, 4),
{
    reveal_strlit("e");
    reveal_strlit("d");
    if r[0] == 'e' {
        assert(r.take(1) =~= "e"@);
    } else {
        assert(r.skip(r.len() - 1) =~= "d"@);
    }
    lemma_mov_load_step(prog, code_labels, s, r);
}

/// A `mov` from memory into a byte register named with a `b` suffix
/// (`r8b`, ...) is a one-byte read, its start and end the same address.
pub proof fn law_mov_into_byte_register_reads_one_byte(
    prog: Seq<InstrModel>,
    code_labels: Map<Seq<char>, usize>,
    s: PathModel,
    r: Seq<char>,
)
    requires
        at_mov_load(prog, s, r),
        r.len() > 0,
        r[0] != 'e',
        r.last() == 'b',
    ensures
        mov_reads_bytes(prog, code_labels, s, 1),
{
    reveal_strlit("e");
    reveal_strlit("d");
    reveal_strlit("b");
    assert(r.skip(r.len() - 1) =~= "b"@);
    assert(!starts_with(r, "e"@)) by {
        if starts_with(r, "e"@) {
            assert(r.take(1)[0] == r[0]);
        }
    }
    assert(!ends_with(r, "d"@)) by {
        if ends_with(r, "d"@) {
            assert(r.skip(r.len() - 1)[0] == r.last());
        }
    }
    lemma_mov_load_step(prog, code_labels, s, r);
}

} // verus!
