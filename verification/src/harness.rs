//! The proving harness of an assembly function: one memory region per
//! parameter, sized from the parameter's type, its address in the
//! parameter's argument register, and the function's invariants asserted;
//! and the reading of invariant expressions into the engine's terms.
use vstd::prelude::*;
use crate::common::{
    AbstractComparison, AbstractExpression, CmpModel, ExprModel, RegModel, RegionModel, RegionType, RegisterKind,
    copy_comparison, fresh_content, generate_comparison, generate_expression, rv_new_model, str_is,
};
use crate::computer::{X86Model, formulas_view, lemma_plain_r_name, normalize_name, order_after_insert, put_register};
use crate::engine::ExecutionEngineX86;
use crate::text::{all_digits, chars_of, parse_int, parse_int_range, digit_of, digit_of_exec, digit_seq, digits_value, lemma_digits_value_nonneg, lemma_digits_value_prefix, push_chars, push_str, string_from_chars};

verus! {

broadcast use vstd::layout::layout_of_primitives;

/// The shape of a parameter's type, as far as the harness reads it.
pub enum TypeShape {
    /// A path type, by its first segment (`u32`, `usize`, ...).
    Path(String),
    /// `[elem; len]`: the element's first path segment when it is a path,
    /// and the length's text when it is an integer literal.
    Array { elem: Option<String>, len: Option<String> },
    /// `&T` or `&mut T`.
    Reference(Box<TypeShape>),
    /// Any other type.
    Other,
}

/// Model of a `TypeShape`.
pub enum ShapeModel {
    Path(Seq<char>),
    Array { elem: Option<Seq<char>>, len: Option<Seq<char>> },
    Reference(Box<ShapeModel>),
    Other,
}

pub open spec fn opt_chars(o: Option<String>) -> Option<Seq<char>> {
    match o {
        Some(s) => Some(s@),
        None => None,
    }
}

impl TypeShape {
    pub open spec fn view(&self) -> ShapeModel
        decreases self,
    {
        match self {
            TypeShape::Path(s) => ShapeModel::Path(s@),
            TypeShape::Array { elem, len } => ShapeModel::Array { elem: opt_chars(*elem), len: opt_chars(*len) },
            TypeShape::Reference(b) => ShapeModel::Reference(Box::new((**b).view())),
            TypeShape::Other => ShapeModel::Other,
        }
    }
}

/// A parameter of the function: its name when it is a plain identifier
/// pattern, and the shape of its type.
pub struct Param {
    pub name: Option<String>,
    pub ty: TypeShape,
}

pub struct ParamModel {
    pub name: Option<Seq<char>>,
    pub ty: ShapeModel,
}

impl Param {
    pub open spec fn view(&self) -> ParamModel {
        ParamModel { name: opt_chars(self.name), ty: self.ty@ }
    }
}

pub open spec fn params_view(v: Seq<Param>) -> Seq<ParamModel> {
    v.map_values(|p: Param| p@)
}

/// What `str::parse::<usize>` gives: an optional `+`, then one or more
/// decimal digits, at most `usize::MAX`.
pub open spec fn parse_usize(s: Seq<char>) -> Option<int> {
    let ds = if s.len() > 0 && s[0] == '+' {
        s.drop_first()
    } else {
        s
    };
    if ds.len() == 0 || !all_digits(ds, 10) {
        None
    } else {
        let v = digits_value(digit_seq(ds, 10), 10);
        if v <= usize::MAX {
            Some(v)
        } else {
            None
        }
    }
}

/// The size in bytes the harness gives a named type: the primitive sizes
/// (`usize` counted as 16 bytes), or a size written as a number; `None`
/// for any other name.
pub open spec fn type_size(ty: Seq<char>) -> Option<int> {
    if ty == "i8"@ || ty == "u8"@ {
        Some(1)
    } else if ty == "i16"@ || ty == "u16"@ {
        Some(2)
    } else if ty == "i32"@ || ty == "u32"@ {
        Some(4)
    } else if ty == "i64"@ || ty == "u64"@ {
        Some(8)
    } else if ty == "u128"@ || ty == "usize"@ {
        Some(16)
    } else if ty == "isize"@ {
        Some(vstd::layout::size_of::<isize>() as int)
    } else {
        parse_usize(ty)
    }
}

/// The size of `[elem; len]`: the element's size times the length.
pub open spec fn array_size(elem: Option<Seq<char>>, len: Option<Seq<char>>) -> Option<int> {
    match (elem, len) {
        (Some(e), Some(l)) => match (type_size(e), parse_usize(l)) {
            (Some(s), Some(n)) => if s * n <= usize::MAX {
                Some(s * n)
            } else {
                None
            },
            _ => None,
        },
        _ => None,
    }
}

/// The length of the region for a parameter of shape `ty`: an array's
/// size, the size behind a reference to an array or a named type, twice
/// the size of a named type, and 4096 for anything else; `None` where the
/// size cannot be worked out (an unknown type name, an array whose element
/// is not a path or whose length is not a literal, a size overflowing).
pub open spec fn region_length_of(ty: ShapeModel) -> Option<i64> {
    match ty {
        ShapeModel::Array { elem, len } => match array_size(elem, len) {
            Some(s) => Some(s as i64),
            None => None,
        },
        ShapeModel::Reference(inner) => match *inner {
            ShapeModel::Array { elem, len } => match array_size(elem, len) {
                Some(s) => Some(s as i64),
                None => None,
            },
            ShapeModel::Path(p) => match type_size(p) {
                Some(s) => Some(s as i64),
                None => None,
            },
            _ => Some(4096),
        },
        ShapeModel::Path(p) => match type_size(p) {
            Some(s) => if (s as i64) * 2 <= i64::MAX && (s as i64) * 2 >= i64::MIN {
                Some(((s as i64) * 2) as i64)
            } else {
                None
            },
            None => None,
        },
        ShapeModel::Other => Some(4096),
    }
}

/// The argument registers, in order.
pub open spec fn arg_registers() -> Seq<Seq<char>> {
    seq!["rdi"@, "rsi"@, "rdx"@, "rcx"@, "r8"@, "r9"@]
}

/// The machine after setting up the parameters `ps`, the first `k` of the
/// named ones already holding argument registers.
pub open spec fn harness_model(m: X86Model, ps: Seq<ParamModel>) -> X86Model
    decreases ps.len(),
{
    if ps.len() == 0 {
        m
    } else {
        let before = harness_model(m, ps.drop_last());
        match ps.last().name {
            None => before,
            Some(name) => {
                let len = ExprModel::Immediate(region_length_of(ps.last().ty)->0);
                let with_region = X86Model {
                    memory: before.memory.insert(name, RegionModel { kind: RegionType::RW, length: len, content: fresh_content(len) }),
                    memory_order: order_after_insert(before.memory_order, before.memory, name),
                    ..before
                };
                let k = named_count(ps.drop_last());
                if k < 6 {
                    X86Model {
                        registers: put_register(
                            with_region.registers,
                            arg_registers()[k],
                            rv_new_model(RegisterKind::RegisterBase, Some(ExprModel::Abstract(name)), 0),
                        ),
                        ..with_region
                    }
                } else {
                    with_region
                }
            },
        }
    }
}

/// The number of named parameters.
pub open spec fn named_count(ps: Seq<ParamModel>) -> int
    decreases ps.len(),
{
    if ps.len() == 0 {
        0
    } else {
        named_count(ps.drop_last()) + if ps.last().name is Some {
            1int
        } else {
            0int
        }
    }
}

/// Every named parameter's region length can be worked out.
pub open spec fn params_ok(ps: Seq<ParamModel>) -> bool {
    forall|i: int| 0 <= i < ps.len() && (#[trigger] ps[i]).name is Some ==> region_length_of(ps[i].ty) is Some
}

proof fn lemma_named_count_bound(ps: Seq<ParamModel>)
    ensures
        0 <= named_count(ps) <= ps.len(),
    decreases ps.len(),
{
    if ps.len() > 0 {
        lemma_named_count_bound(ps.drop_last());
    }
}

/// Parses a length or size written as a number, as `str::parse::<usize>` does.
pub fn parse_usize_exec(s: &str) -> (r: Option<usize>)
    ensures
        match r {
            Some(v) => parse_usize(s@) == Some(v as int),
            None => parse_usize(s@) is None,
        },
{
    let v = chars_of(s);
    let start: usize = if v.len() > 0 && v[0] == '+' {
        1
    } else {
        0
    };
    let ghost ds = if v@.len() > 0 && v@[0] == '+' {
        v@.drop_first()
    } else {
        v@
    };
    assert(ds =~= v@.subrange(start as int, v@.len() as int));
    if start >= v.len() {
        return None;
    }
    let mut acc: usize = 0;
    let mut i: usize = start;
    while i < v.len()
        invariant
            start <= i <= v@.len(),
            v@ == s@,
            ds =~= v@.subrange(start as int, v@.len() as int),
            ds == (if s@.len() > 0 && s@[0] == '+' {
                s@.drop_first()
            } else {
                s@
            }),
            all_digits(v@.subrange(start as int, i as int), 10),
            acc == digits_value(digit_seq(v@.subrange(start as int, i as int), 10), 10),
        decreases v@.len() - i,
    {
        let d = digit_of_exec(v[i], 10);
        let ghost pre = v@.subrange(start as int, i as int);
        let ghost next = v@.subrange(start as int, i + 1);
        assert(next =~= pre.push(v@[i as int]));
        assert(digit_seq(next, 10) =~= digit_seq(pre, 10).push(digit_of(v@[i as int], 10)));
        assert(digit_seq(next, 10).drop_last() =~= digit_seq(pre, 10));
        if d < 0 {
            proof {
                assert(!all_digits(ds, 10)) by {
                    assert(ds[i - start] == v@[i as int]);
                }
            }
            return None;
        }
        proof {
            assert(all_digits(next, 10)) by {
                assert forall|j: int| 0 <= j < next.len() implies digit_of(#[trigger] next[j], 10) >= 0 by {
                    if j < pre.len() {
                        assert(next[j] == pre[j]);
                    }
                }
            }
        }
        let m = acc.checked_mul(10);
        let nv = match m {
            Some(x) => x.checked_add(d as usize),
            None => None,
        };
        match nv {
            Some(x) => {
                acc = x;
            },
            None => {
                proof {
                    let all = digit_seq(ds, 10);
                    assert(digits_value(digit_seq(next, 10), 10) == acc * 10 + d);
                    if all_digits(ds, 10) {
                        assert forall|j: int| 0 <= j < all.len() implies all[j] >= 0 by {
                            assert(digit_of(ds[j], 10) >= 0);
                        }
                        assert(all.take(next.len() as int) =~= digit_seq(next, 10)) by {
                            assert forall|j: int| 0 <= j < next.len() implies all[j] == digit_seq(next, 10)[j] by {
                                assert(ds[j] == next[j]);
                            }
                        }
                        lemma_digits_value_prefix(all, 10, next.len() as int);
                    }
                }
                return None;
            },
        }
        i = i + 1;
    }
    assert(v@.subrange(start as int, i as int) =~= ds);
    Some(acc)
}


/// The size in bytes of a named type (see `type_size`).
pub fn calculate_size_of(ty: &str) -> (r: usize)
    requires
        type_size(ty@) is Some,
    ensures
        r == type_size(ty@)->0,
{
    let t = String::from_str(ty);
    if str_is(&t, "i8") || str_is(&t, "u8") {
        1
    } else if str_is(&t, "i16") || str_is(&t, "u16") {
        2
    } else if str_is(&t, "i32") || str_is(&t, "u32") {
        4
    } else if str_is(&t, "i64") || str_is(&t, "u64") {
        8
    } else if str_is(&t, "u128") || str_is(&t, "usize") {
        16
    } else if str_is(&t, "isize") {
        core::mem::size_of::<isize>()
    } else {
        match parse_usize_exec(ty) {
            Some(v) => v,
            None => 0,
        }
    }
}

/// The size of a named type, or `None` where `type_size` has none.
fn type_size_exec(ty: &str) -> (r: Option<usize>)
    ensures
        match r {
            Some(v) => type_size(ty@) == Some(v as int),
            None => type_size(ty@) is None,
        },
{
    let t = String::from_str(ty);
    if str_is(&t, "i8") || str_is(&t, "u8") || str_is(&t, "i16") || str_is(&t, "u16") || str_is(&t, "i32")
        || str_is(&t, "u32") || str_is(&t, "i64") || str_is(&t, "u64") || str_is(&t, "u128") || str_is(&t, "usize")
        || str_is(&t, "isize") {
        Some(calculate_size_of(ty))
    } else {
        parse_usize_exec(ty)
    }
}

/// The size of `[elem; len]` (see `array_size`).
pub fn calculate_size_of_array(elem: &Option<String>, len: &Option<String>) -> (r: usize)
    requires
        array_size(opt_chars(*elem), opt_chars(*len)) is Some,
    ensures
        r == array_size(opt_chars(*elem), opt_chars(*len))->0,
{
    match array_size_exec(elem, len) {
        Some(v) => v,
        None => 0,
    }
}

fn array_size_exec(elem: &Option<String>, len: &Option<String>) -> (r: Option<usize>)
    ensures
        match r {
            Some(v) => array_size(opt_chars(*elem), opt_chars(*len)) == Some(v as int),
            None => array_size(opt_chars(*elem), opt_chars(*len)) is None,
        },
{
    match (elem, len) {
        (Some(e), Some(l)) => match (type_size_exec(e.as_str()), parse_usize_exec(l.as_str())) {
            (Some(s), Some(n)) => s.checked_mul(n),
            _ => None,
        },
        _ => None,
    }
}

/// The length of the region for a parameter of this shape, or `None`
/// where it cannot be worked out (see `region_length_of`).
pub fn region_length_exec(ty: &TypeShape) -> (r: Option<i64>)
    ensures
        r == region_length_of(ty@),
{
    match ty {
        TypeShape::Array { elem, len } => match array_size_exec(elem, len) {
            Some(s) => Some(s as i64),
            None => None,
        },
        TypeShape::Reference(inner) => {
            assert(ty@ == ShapeModel::Reference(Box::new((**inner)@)));
            match &**inner {
                TypeShape::Array { elem, len } => match array_size_exec(elem, len) {
                    Some(s) => Some(s as i64),
                    None => None,
                },
                TypeShape::Path(p) => match type_size_exec(p.as_str()) {
                    Some(s) => Some(s as i64),
                    None => None,
                },
                _ => Some(4096),
            }
        },
        TypeShape::Path(p) => match type_size_exec(p.as_str()) {
            Some(s) => (s as i64).checked_mul(2),
            None => None,
        },
        TypeShape::Other => Some(4096),
    }
}

fn arg_register(k: usize) -> (r: &'static str)
    requires
        k < 6,
    ensures
        r@ == arg_registers()[k as int],
{
    match k {
        0 => "rdi",
        1 => "rsi",
        2 => "rdx",
        3 => "rcx",
        4 => "r8",
        _ => "r9",
    }
}

impl ExecutionEngineX86 {
    /// Sets up the parameters of the function to prove: each named one
    /// gets a read-write region under its name (see `region_length_of`),
    /// and the first six named ones are put, by name, into `rdi`, `rsi`,
    /// `rdx`, `rcx`, `r8` and `r9`.
    pub fn setup_parameters(&mut self, params: &Vec<Param>)
        requires
            params_ok(params_view(params@)),
        ensures
            final(self).computer@ == harness_model(old(self).computer@, params_view(params@)),
            final(self).program@ == old(self).program@,
            final(self).label_map@ == old(self).label_map@,
            final(self).jump_history@ == old(self).jump_history@,
            final(self).in_loop == old(self).in_loop,
    {
        let ghost pv = params_view(params@);
        let ghost m0 = self.computer@;
        let mut k: usize = 0;
        let mut i: usize = 0;
        assert(pv.take(0) =~= Seq::<ParamModel>::empty());
        while i < params.len()
            invariant
                i <= params@.len(),
                pv == params_view(params@),
                params_ok(pv),
                k == named_count(pv.take(i as int)),
                self.computer@ == harness_model(m0, pv.take(i as int)),
                self.program@ == old(self).program@,
                self.label_map@ == old(self).label_map@,
                self.jump_history@ == old(self).jump_history@,
                self.in_loop == old(self).in_loop,
            decreases params@.len() - i,
        {
            let p = &params[i];
            proof {
                assert(pv.take(i + 1).drop_last() =~= pv.take(i as int));
                assert(pv.take(i + 1).last() == p@);
                assert(pv[i as int] == p@);
                lemma_named_count_bound(pv.take(i as int));
            }
            match &p.name {
                None => {},
                Some(n) => {
                    let len = match region_length_exec(&p.ty) {
                        Some(l) => l,
                        None => {
                            assert(false);
                            0
                        },
                    };
                    self.computer.add_memory_region(n.clone(), RegionType::RW, AbstractExpression::Immediate(len));
                    if k < 6 {
                        self.computer.set_register_abstract(arg_register(k), Some(AbstractExpression::Abstract(n.clone())), 0);
                    }
                    k = k + 1;
                },
            }
            i = i + 1;
        }
        assert(pv.take(i as int) =~= pv);
    }

    /// Asserts the invariants of the function to prove on the engine's
    /// machine, in order.
    pub fn add_invariants(&mut self, invariants: &Vec<AbstractComparison>)
        ensures
            final(self).computer@ == (X86Model {
                assertions: old(self).computer@.assertions + formulas_view(invariants@),
                ..old(self).computer@
            }),
            final(self).program@ == old(self).program@,
            final(self).label_map@ == old(self).label_map@,
            final(self).jump_history@ == old(self).jump_history@,
            final(self).in_loop == old(self).in_loop,
    {
        let ghost a0 = self.computer@.assertions;
        let mut i: usize = 0;
        while i < invariants.len()
            invariant
                i <= invariants@.len(),
                self.computer@ == (X86Model {
                    assertions: a0 + formulas_view(invariants@).take(i as int),
                    ..old(self).computer@
                }),
                a0 == old(self).computer@.assertions,
                self.program@ == old(self).program@,
                self.label_map@ == old(self).label_map@,
                self.jump_history@ == old(self).jump_history@,
                self.in_loop == old(self).in_loop,
            decreases invariants@.len() - i,
        {
            let c = copy_comparison(&invariants[i]);
            let ghost prev = self.computer.assertions@;
            self.computer.assertions.push(c);
            proof {
                assert(formulas_view(self.computer.assertions@) =~= formulas_view(prev).push(invariants@[i as int]@));
                assert(formulas_view(invariants@).take(i + 1) =~= formulas_view(invariants@).take(i as int).push(invariants@[i as int]@));
            }
            i = i + 1;
        }
        assert(formulas_view(invariants@).take(i as int) =~= formulas_view(invariants@));
    }
}


/// The binary operators of an invariant expression.
#[derive(Debug, Clone, Copy, PartialEq, Eq, Structural)]
pub enum BinOpKind {
    Add,
    Sub,
    Mul,
    Div,
    Rem,
    Eq,
    Lt,
    Le,
    Ne,
    Ge,
    Gt,
    Other,
}

/// The unary operators of an invariant expression.
#[derive(Debug, Clone, Copy, PartialEq, Eq, Structural)]
pub enum UnOpKind {
    Not,
    Neg,
    Other,
}

/// The shape of an invariant expression, as far as it is read: literals,
/// operators, `name.method()`, paths and fields by their first segment.
pub enum ExprShape {
    /// A string literal.
    Str(String),
    /// An integer literal, by its decimal digits.
    Int(String),
    Binary(BinOpKind, Box<ExprShape>, Box<ExprShape>),
    Unary(UnOpKind, Box<ExprShape>),
    /// A method call: the receiver's first path segment when the receiver
    /// is a path, and the method's name.
    MethodCall { receiver: Option<String>, method: String },
    /// A path, by its first segment.
    Path(String),
    /// A field access: the base's first path segment when the base is a
    /// path, and the member (a name or an index, as text).
    Field { base: Option<String>, member: String },
    /// Any other expression or literal.
    Other,
}

/// Model of an `ExprShape`.
pub enum ShapeExprModel {
    Str(Seq<char>),
    Int(Seq<char>),
    Binary(BinOpKind, Box<ShapeExprModel>, Box<ShapeExprModel>),
    Unary(UnOpKind, Box<ShapeExprModel>),
    MethodCall { receiver: Option<Seq<char>>, method: Seq<char> },
    Path(Seq<char>),
    Field { base: Option<Seq<char>>, member: Seq<char> },
    Other,
}

impl ExprShape {
    pub open spec fn view(&self) -> ShapeExprModel
        decreases self,
    {
        match self {
            ExprShape::Str(s) => ShapeExprModel::Str(s@),
            ExprShape::Int(d) => ShapeExprModel::Int(d@),
            ExprShape::Binary(op, a, b) => ShapeExprModel::Binary(*op, Box::new((**a).view()), Box::new((**b).view())),
            ExprShape::Unary(op, a) => ShapeExprModel::Unary(*op, Box::new((**a).view())),
            ExprShape::MethodCall { receiver, method } => ShapeExprModel::MethodCall { receiver: opt_chars(*receiver), method: method@ },
            ExprShape::Path(p) => ShapeExprModel::Path(p@),
            ExprShape::Field { base, member } => ShapeExprModel::Field { base: opt_chars(*base), member: member@ },
            ExprShape::Other => ShapeExprModel::Other,
        }
    }
}

/// The symbol of an arithmetic operator.
pub open spec fn arith_symbol(op: BinOpKind) -> Option<Seq<char>> {
    match op {
        BinOpKind::Add => Some("+"@),
        BinOpKind::Sub => Some("-"@),
        BinOpKind::Div => Some("/"@),
        BinOpKind::Mul => Some("*"@),
        BinOpKind::Rem => Some("%"@),
        _ => None,
    }
}

/// The symbol of a relational operator.
pub open spec fn relation_symbol(op: BinOpKind) -> Option<Seq<char>> {
    match op {
        BinOpKind::Eq => Some("=="@),
        BinOpKind::Lt => Some("<"@),
        BinOpKind::Le => Some("<="@),
        BinOpKind::Ne => Some("!="@),
        BinOpKind::Ge => Some(">="@),
        BinOpKind::Gt => Some(">"@),
        _ => None,
    }
}

/// The expressions that can be read: integer literals that fit an `i64`,
/// arithmetic on readable operands, `!` and `-`, `name.len()`,
/// `name.as_ptr()`, `name.as_mut_ptr()`, paths, and fields of a path.
pub open spec fn shape_ok(e: ShapeExprModel) -> bool
    decreases e,
{
    match e {
        ShapeExprModel::Str(_) => true,
        ShapeExprModel::Int(d) => parse_int(d, 10) is Some,
        ShapeExprModel::Binary(op, a, b) => shape_ok(*a) && shape_ok(*b) && arith_symbol(op) is Some,
        ShapeExprModel::Unary(op, a) => shape_ok(*a) && op != UnOpKind::Other,
        ShapeExprModel::MethodCall { receiver, method } => receiver is Some && (method == "len"@ || method
            == "as_ptr"@ || method == "as_mut_ptr"@),
        ShapeExprModel::Path(_) => true,
        ShapeExprModel::Field { base, .. } => base is Some,
        ShapeExprModel::Other => false,
    }
}

/// What an expression reads as: a string literal or a path as that name,
/// an integer as an immediate, an operator as an expression (a unary one
/// with an empty right side), `x.m()` as the name `x_m`, and `x.f` as the
/// name `x_fieldf`.
pub open spec fn shape_expr(e: ShapeExprModel) -> ExprModel
    decreases e,
{
    match e {
        ShapeExprModel::Str(s) => ExprModel::Abstract(s),
        ShapeExprModel::Int(d) => ExprModel::Immediate(parse_int(d, 10)->0 as i64),
        ShapeExprModel::Binary(op, a, b) => ExprModel::Expression(
            arith_symbol(op)->0,
            Box::new(shape_expr(*a)),
            Box::new(shape_expr(*b)),
        ),
        ShapeExprModel::Unary(op, a) => ExprModel::Expression(
            if op == UnOpKind::Not {
                "!"@
            } else {
                "-"@
            },
            Box::new(shape_expr(*a)),
            Box::new(ExprModel::Empty),
        ),
        ShapeExprModel::MethodCall { receiver, method } => ExprModel::Abstract(receiver->0 + "_"@ + method),
        ShapeExprModel::Path(p) => ExprModel::Abstract(p),
        ShapeExprModel::Field { base, member } => ExprModel::Abstract(base->0 + "_field"@ + member),
        ShapeExprModel::Other => ExprModel::Immediate(0),
    }
}

fn concat3(a: &String, b: &str, c: &String) -> (r: String)
    ensures
        r@ == a@ + b@ + c@,
{
    let mut out: Vec<char> = Vec::new();
    push_chars(&mut out, &chars_of(a.as_str()));
    push_str(&mut out, b);
    push_chars(&mut out, &chars_of(c.as_str()));
    string_from_chars(out.as_slice())
}

/// Whether an expression can be read (see `shape_ok`).
pub fn shape_ok_exec(e: &ExprShape) -> (r: bool)
    ensures
        r == shape_ok(e@),
    decreases e,
{
    match e {
        ExprShape::Str(_) => true,
        ExprShape::Int(d) => {
            let v = chars_of(d.as_str());
            assert(v@.subrange(0, v@.len() as int) =~= v@);
            parse_int_range(&v, 0, v.len(), 10).is_some()
        },
        ExprShape::Binary(op, a, b) => {
            let oa = shape_ok_exec(&**a);
            let ob = shape_ok_exec(&**b);
            oa && ob && match op {
                BinOpKind::Add | BinOpKind::Sub | BinOpKind::Div | BinOpKind::Mul | BinOpKind::Rem => true,
                _ => false,
            }
        },
        ExprShape::Unary(op, a) => shape_ok_exec(&**a) && *op != UnOpKind::Other,
        ExprShape::MethodCall { receiver, method } => receiver.is_some() && (str_is(method, "len") || str_is(
            method,
            "as_ptr",
        ) || str_is(method, "as_mut_ptr")),
        ExprShape::Path(_) => true,
        ExprShape::Field { base, .. } => base.is_some(),
        ExprShape::Other => false,
    }
}

/// Reads an invariant's operand into the engine's terms (see `shape_expr`).
pub fn syn_expr_to_abstract_expression(e: &ExprShape) -> (r: AbstractExpression)
    requires
        shape_ok(e@),
    ensures
        r@ == shape_expr(e@),
    decreases e,
{
    match e {
        ExprShape::Str(s) => AbstractExpression::Abstract(s.clone()),
        ExprShape::Int(d) => {
            let v = chars_of(d.as_str());
            assert(v@.subrange(0, v@.len() as int) =~= v@);
            match parse_int_range(&v, 0, v.len(), 10) {
                Some(n) => AbstractExpression::Immediate(n),
                None => AbstractExpression::Immediate(0),
            }
        },
        ExprShape::Binary(op, a, b) => {
            let left = syn_expr_to_abstract_expression(&**a);
            let right = syn_expr_to_abstract_expression(&**b);
            let sym = match op {
                BinOpKind::Add => "+",
                BinOpKind::Sub => "-",
                BinOpKind::Div => "/",
                BinOpKind::Mul => "*",
                _ => "%",
            };
            generate_expression(sym, left, right)
        },
        ExprShape::Unary(op, a) => {
            let inner = syn_expr_to_abstract_expression(&**a);
            let sym = if *op == UnOpKind::Not {
                "!"
            } else {
                "-"
            };
            generate_expression(sym, inner, AbstractExpression::Empty)
        },
        ExprShape::MethodCall { receiver, method } => match receiver {
            Some(r) => AbstractExpression::Abstract(concat3(r, "_", method)),
            None => AbstractExpression::Empty,
        },
        ExprShape::Path(p) => AbstractExpression::Abstract(p.clone()),
        ExprShape::Field { base, member } => match base {
            Some(b) => AbstractExpression::Abstract(concat3(b, "_field", member)),
            None => AbstractExpression::Empty,
        },
        ExprShape::Other => AbstractExpression::Immediate(0),
    }
}

/// Reads `a op b` with an arithmetic operator.
pub fn binary_to_abstract_expression(op: BinOpKind, a: &ExprShape, b: &ExprShape) -> (r: AbstractExpression)
    requires
        shape_ok(a@),
        shape_ok(b@),
        arith_symbol(op) is Some,
    ensures
        r@ == ExprModel::Expression(arith_symbol(op)->0, Box::new(shape_expr(a@)), Box::new(shape_expr(b@))),
{
    let left = syn_expr_to_abstract_expression(a);
    let right = syn_expr_to_abstract_expression(b);
    let sym = match op {
        BinOpKind::Add => "+",
        BinOpKind::Sub => "-",
        BinOpKind::Div => "/",
        BinOpKind::Mul => "*",
        _ => "%",
    };
    generate_expression(sym, left, right)
}

/// Reads `a op b` with a relational operator as a comparison.
pub fn binary_to_abstract_comparison(op: BinOpKind, a: &ExprShape, b: &ExprShape) -> (r: AbstractComparison)
    requires
        shape_ok(a@),
        shape_ok(b@),
        relation_symbol(op) is Some,
    ensures
        r@ == (CmpModel { op: relation_symbol(op)->0, left: shape_expr(a@), right: shape_expr(b@) }),
{
    let left = syn_expr_to_abstract_expression(a);
    let right = syn_expr_to_abstract_expression(b);
    let sym = match op {
        BinOpKind::Eq => "==",
        BinOpKind::Lt => "<",
        BinOpKind::Le => "<=",
        BinOpKind::Ne => "!=",
        BinOpKind::Ge => ">=",
        _ => ">",
    };
    generate_comparison(sym, left, right)
}

/// Reads `!a` or `-a`.
pub fn unary_to_abstract_expression(op: UnOpKind, a: &ExprShape) -> (r: AbstractExpression)
    requires
        shape_ok(a@),
        op != UnOpKind::Other,
    ensures
        r@ == ExprModel::Expression(
            if op == UnOpKind::Not {
                "!"@
            } else {
                "-"@
            },
            Box::new(shape_expr(a@)),
            Box::new(ExprModel::Empty),
        ),
{
    let e = syn_expr_to_abstract_expression(a);
    let sym = if op == UnOpKind::Not {
        "!"
    } else {
        "-"
    };
    generate_expression(sym, e, AbstractExpression::Empty)
}


/// The value of an expression of unsigned integer literals and `+ - * /`:
/// `+` and `*` wrap, `-` below zero and `/` by zero give nothing.
pub open spec fn eval_usize(e: ShapeExprModel) -> Option<usize>
    decreases e,
{
    match e {
        ShapeExprModel::Int(d) => match parse_usize(d) {
            Some(v) => Some(v as usize),
            None => None,
        },
        ShapeExprModel::Binary(op, a, b) => match (eval_usize(*a), eval_usize(*b)) {
            (Some(l), Some(r)) => match op {
                BinOpKind::Add => Some(vstd::wrapping::usize_specs::wrapping_add(l, r)),
                BinOpKind::Sub => if l >= r {
                    Some((l - r) as usize)
                } else {
                    None
                },
                BinOpKind::Mul => Some(vstd::wrapping::usize_specs::wrapping_mul(l, r)),
                BinOpKind::Div => if r == 0 {
                    None
                } else {
                    Some((l / r) as usize)
                },
                _ => None,
            },
            _ => None,
        },
        _ => None,
    }
}

/// The sample size after one invariant: raised to the constant bound of
/// an invariant `x >= n` or `x > n` (the right side first, else the left)
/// when that bound is larger.
pub open spec fn raise_sample(sample: usize, inv: ShapeExprModel) -> usize {
    match inv {
        ShapeExprModel::Binary(op, a, b) => if op == BinOpKind::Ge || op == BinOpKind::Gt {
            match eval_usize(*b) {
                Some(v) => if v > sample {
                    v
                } else {
                    sample
                },
                None => match eval_usize(*a) {
                    Some(v) => if v > sample {
                        v
                    } else {
                        sample
                    },
                    None => sample,
                },
            }
        } else {
            sample
        },
        _ => sample,
    }
}

/// The buffer size the ABI probe uses: the configured size (4096 when
/// none), raised by each invariant in turn.
pub open spec fn probe_sample(configured: Option<usize>, invs: Seq<ShapeExprModel>) -> usize
    decreases invs.len(),
{
    if invs.len() == 0 {
        match configured {
            Some(v) => v,
            None => 4096,
        }
    } else {
        raise_sample(probe_sample(configured, invs.drop_last()), invs.last())
    }
}

pub open spec fn shapes_view(v: Seq<ExprShape>) -> Seq<ShapeExprModel> {
    v.map_values(|e: ExprShape| e@)
}

/// The value of a constant expression (see `eval_usize`).
pub fn eval_usize_expr(e: &ExprShape) -> (r: Option<usize>)
    ensures
        r == eval_usize(e@),
    decreases e,
{
    match e {
        ExprShape::Int(d) => parse_usize_exec(d.as_str()),
        ExprShape::Binary(op, a, b) => {
            let l = match eval_usize_expr(&**a) {
                Some(v) => v,
                None => {
                    return None;
                },
            };
            let r = match eval_usize_expr(&**b) {
                Some(v) => v,
                None => {
                    return None;
                },
            };
            match op {
                BinOpKind::Add => Some(l.wrapping_add(r)),
                BinOpKind::Sub => l.checked_sub(r),
                BinOpKind::Mul => Some(l.wrapping_mul(r)),
                BinOpKind::Div => if r == 0 {
                    None
                } else {
                    Some(l / r)
                },
                _ => None,
            }
        },
        _ => None,
    }
}

/// The buffer size the ABI probe uses (see `probe_sample`).
pub fn probe_sample_size(configured: Option<usize>, invariants: &Vec<ExprShape>) -> (r: usize)
    ensures
        r == probe_sample(configured, shapes_view(invariants@)),
{
    let ghost iv = shapes_view(invariants@);
    let mut sample: usize = match configured {
        Some(v) => v,
        None => 4096,
    };
    let mut i: usize = 0;
    assert(iv.take(0) =~= Seq::<ShapeExprModel>::empty());
    while i < invariants.len()
        invariant
            i <= invariants@.len(),
            iv == shapes_view(invariants@),
            sample == probe_sample(configured, iv.take(i as int)),
        decreases invariants@.len() - i,
    {
        proof {
            assert(iv.take(i + 1).drop_last() =~= iv.take(i as int));
            assert(iv.take(i + 1).last() == invariants@[i as int]@);
        }
        match &invariants[i] {
            ExprShape::Binary(op, a, b) => {
                if *op == BinOpKind::Ge || *op == BinOpKind::Gt {
                    match eval_usize_expr(&**b) {
                        Some(v) => {
                            if v > sample {
                                sample = v;
                            }
                        },
                        None => match eval_usize_expr(&**a) {
                            Some(v) => {
                                if v > sample {
                                    sample = v;
                                }
                            },
                            None => {},
                        },
                    }
                }
            },
            _ => {},
        }
        i = i + 1;
    }
    assert(iv.take(i as int) =~= iv);
    sample
}


/// The position of the first invariant at or after `i` that is not a
/// binary expression, or the number of invariants.
pub open spec fn first_non_binary_from(invs: Seq<ShapeExprModel>, i: int) -> int
    decreases invs.len() - i,
{
    if i < 0 || i >= invs.len() {
        invs.len() as int
    } else if invs[i] is Binary {
        first_non_binary_from(invs, i + 1)
    } else {
        i
    }
}

pub proof fn lemma_first_non_binary_at_least(invs: Seq<ShapeExprModel>, i: int)
    requires
        0 <= i <= invs.len(),
    ensures
        i <= first_non_binary_from(invs, i) <= invs.len(),
    decreases invs.len() - i,
{
    if i < invs.len() && invs[i] is Binary {
        lemma_first_non_binary_at_least(invs, i + 1);
    }
}

/// A binary invariant that reads as a comparison: readable operands and a
/// relational operator.
pub open spec fn comparison_ok(e: ShapeExprModel) -> bool {
    match e {
        ShapeExprModel::Binary(op, a, b) => shape_ok(*a) && shape_ok(*b) && relation_symbol(op) is Some,
        _ => false,
    }
}

/// The comparison a binary invariant states.
pub open spec fn comparison_of(e: ShapeExprModel) -> CmpModel {
    match e {
        ShapeExprModel::Binary(op, a, b) => CmpModel {
            op: relation_symbol(op)->0,
            left: shape_expr(*a),
            right: shape_expr(*b),
        },
        _ => CmpModel { op: Seq::empty(), left: ExprModel::Empty, right: ExprModel::Empty },
    }
}

/// The comparisons the invariants of a function state, in order; a list
/// with an invariant that is not a binary expression is refused.
pub fn invariant_comparisons(invs: &Vec<ExprShape>) -> (r: Result<Vec<AbstractComparison>, String>)
    requires
        forall|i: int|
            0 <= i < first_non_binary_from(shapes_view(invs@), 0) ==> #[trigger] comparison_ok(
                shapes_view(invs@)[i],
            ),
    ensures
        match r {
            Ok(cs) => first_non_binary_from(shapes_view(invs@), 0) == invs@.len() && formulas_view(cs@)
                == shapes_view(invs@).map_values(|e: ShapeExprModel| comparison_of(e)),
            Err(m) => first_non_binary_from(shapes_view(invs@), 0) < invs@.len() && m@
                == "invariants must be binary expressions"@,
        },
{
    let ghost sv = shapes_view(invs@);
    let mut out: Vec<AbstractComparison> = Vec::new();
    let mut i: usize = 0;
    while i < invs.len()
        invariant
            i <= invs@.len(),
            sv == shapes_view(invs@),
            first_non_binary_from(sv, 0) == first_non_binary_from(sv, i as int),
            forall|k: int| 0 <= k < first_non_binary_from(sv, 0) ==> #[trigger] comparison_ok(sv[k]),
            formulas_view(out@) == sv.take(i as int).map_values(|e: ShapeExprModel| comparison_of(e)),
        decreases invs@.len() - i,
    {
        match &invs[i] {
            ExprShape::Binary(op, a, b) => {
                proof {
                    assert(sv[i as int] is Binary);
                    assert(first_non_binary_from(sv, i as int) == first_non_binary_from(sv, i + 1));
                    lemma_first_non_binary_at_least(sv, i + 1);
                    assert(comparison_ok(sv[i as int]));
                }
                let c = binary_to_abstract_comparison(*op, a, b);
                let ghost prev = out@;
                out.push(c);
                proof {
                    assert(formulas_view(out@) =~= formulas_view(prev).push(c@));
                    assert(sv.take(i + 1).map_values(|e: ShapeExprModel| comparison_of(e)) =~= sv.take(
                        i as int,
                    ).map_values(|e: ShapeExprModel| comparison_of(e)).push(comparison_of(sv[i as int])));
                }
            },
            _ => {
                return Err(String::from_str("invariants must be binary expressions"));
            },
        }
        i = i + 1;
    }
    proof {
        assert(sv.take(i as int) =~= sv);
    }
    Ok(out)
}


/// The register named by the `k`-th System V integer argument.
pub open spec fn system_v_argument(k: int) -> Seq<char> {
    if k == 0 {
        "rdi"@
    } else if k == 1 {
        "rsi"@
    } else if k == 2 {
        "rdx"@
    } else if k == 3 {
        "rcx"@
    } else if k == 4 {
        "r8"@
    } else {
        "r9"@
    }
}

proof fn lemma_system_v_names(k: int, k2: int)
    requires
        0 <= k < 6,
        0 <= k2 < 6,
    ensures
        normalize_name(system_v_argument(k)) == system_v_argument(k),
        k != k2 ==> system_v_argument(k) != system_v_argument(k2),
{
    reveal_strlit("rdi");
    reveal_strlit("rsi");
    reveal_strlit("rdx");
    reveal_strlit("rcx");
    reveal_strlit("r8");
    reveal_strlit("r9");
    lemma_plain_r_name(system_v_argument(k));
    if k != k2 {
        assert(system_v_argument(k).len() != system_v_argument(k2).len() || system_v_argument(k)[1]
            != system_v_argument(k2)[1] || system_v_argument(k)[2] != system_v_argument(k2)[2]);
    }
}

proof fn lemma_harness_register_keys(m: X86Model, ps: Seq<ParamModel>)
    ensures
        harness_model(m, ps).registers.dom() == m.registers.dom(),
    decreases ps.len(),
{
    if ps.len() > 0 {
        lemma_harness_register_keys(m, ps.drop_last());
        let before = harness_model(m, ps.drop_last());
        assert forall|n: Seq<char>, v: RegModel| #[trigger] put_register(before.registers, n, v).dom() == before.registers.dom() by {
            if before.registers.contains_key(normalize_name(n)) {
                assert(before.registers.insert(normalize_name(n), v).dom() =~= before.registers.dom());
            }
        }
    }
}

proof fn lemma_named_count_grows(ps: Seq<ParamModel>, j: int, b: int)
    requires
        0 <= j < b <= ps.len(),
        ps[j].name is Some,
    ensures
        named_count(ps.take(b)) >= named_count(ps.take(j)) + 1,
    decreases b - j,
{
    if b == j + 1 {
        assert(ps.take(b).drop_last() =~= ps.take(j));
    } else {
        lemma_named_count_grows(ps, j, b - 1);
        assert(ps.take(b).drop_last() =~= ps.take(b - 1));
    }
}

/// Once the parameters are set up, the `k`-th named parameter (`k < 6`) is
/// held by the `k`-th System V argument register, in the order `rdi`,
/// `rsi`, `rdx`, `rcx`, `r8`, `r9`: that register holds the parameter's
/// name as its base, whatever the parameters after it.
pub proof fn law_parameters_in_system_v_registers(m: X86Model, ps: Seq<ParamModel>, j: int)
    requires
        0 <= j < ps.len(),
        ps[j].name is Some,
        named_count(ps.take(j)) < 6,
        m.registers.contains_key("rdi"@),
        m.registers.contains_key("rsi"@),
        m.registers.contains_key("rdx"@),
        m.registers.contains_key("rcx"@),
        m.registers.contains_key("r8"@),
        m.registers.contains_key("r9"@),
    ensures
        harness_model(m, ps).registers[system_v_argument(named_count(ps.take(j)))] == rv_new_model(
            RegisterKind::RegisterBase,
            Some(ExprModel::Abstract(ps[j].name->0)),
            0,
        ),
    decreases ps.len(),
{
    let k = named_count(ps.take(j));
    lemma_named_count_bound(ps.take(j));
    let reg = system_v_argument(k);
    let before = harness_model(m, ps.drop_last());
    lemma_harness_register_keys(m, ps.drop_last());
    assert(arg_registers() =~= seq![
        system_v_argument(0),
        system_v_argument(1),
        system_v_argument(2),
        system_v_argument(3),
        system_v_argument(4),
        system_v_argument(5),
    ]);
    if j == ps.len() - 1 {
        assert(ps.drop_last() =~= ps.take(j));
        lemma_system_v_names(k, k);
        assert(before.registers.contains_key(reg));
    } else {
        assert(ps.drop_last().take(j) =~= ps.take(j));
        law_parameters_in_system_v_registers(m, ps.drop_last(), j);
        match ps.last().name {
            None => {},
            Some(name) => {
                let k2 = named_count(ps.drop_last());
                lemma_named_count_grows(ps, j, ps.len() - 1);
                assert(ps.take(ps.len() - 1) =~= ps.drop_last());
                if k2 < 6 {
                    lemma_system_v_names(k2, k);
                    lemma_system_v_names(k, k2);
                }
            },
        }
    }
}

} // verus!
